//! Exact arithmetic.
//!
//! Floating-point numbers round. What a formula means is what it gives where nothing is rounded,
//! and that is what the laws on exact arithmetic state: over the numbers of mathematics, in terms
//! of what goes in and what comes out. A number type that computes with symbols instead of digits
//! keeps the premise here; a floating-point type keeps it up to its rounding.

use vstd::prelude::*;

use crate::number::Real;

verus! {

/// What the numbers of an exact number type are worth, and the functions of mathematics that its
/// operations stand for.
#[verifier::reject_recursive_types(R)]
pub struct Exact<R> {
    pub value: spec_fn(R) -> real,
    pub sin: spec_fn(real) -> real,
    pub cos: spec_fn(real) -> real,
    pub exp: spec_fn(real) -> real,
    pub tanh: spec_fn(real) -> real,
    pub pow: spec_fn(real, real) -> real,
}

/// The distance of a number from zero.
pub open spec fn distance(x: real) -> real {
    if x < 0real {
        -x
    } else {
        x
    }
}

/// Whether taking `k` times `b` from `a` leaves `rest`, which is smaller than `b` and on the same
/// side of zero as `a`.
pub open spec fn is_rest(k: int, a: real, b: real, rest: real) -> bool {
    &&& a == k as real * b + rest
    &&& -b < rest < b
    &&& a >= 0real ==> rest >= 0real
    &&& a <= 0real ==> rest <= 0real
}

impl<R: Real> Exact<R> {
    pub open spec fn worth(self, a: R) -> real {
        (self.value)(a)
    }

    pub open spec fn sine(self, x: real) -> real {
        (self.sin)(x)
    }

    pub open spec fn cosine(self, x: real) -> real {
        (self.cos)(x)
    }

    pub open spec fn exponential(self, x: real) -> real {
        (self.exp)(x)
    }

    pub open spec fn tangent(self, x: real) -> real {
        (self.tanh)(x)
    }

    pub open spec fn power(self, x: real, k: real) -> real {
        (self.pow)(x, k)
    }

    /// Half the angle of a turn.
    pub open spec fn pi(self) -> real {
        self.worth(R::circle())
    }

    /// Whether the exponential function turns a sum into a product and grows faster than its
    /// argument, which no other function does.
    pub open spec fn grows_exponentially(self, x: real, y: real) -> bool {
        &&& self.exponential(x + y) == self.exponential(x) * self.exponential(y)
        &&& self.exponential(x) >= 1real + x
        &&& self.exponential(x) > 0real
    }

    /// Whether the powers of positive numbers multiply as powers do, in the base and in the
    /// exponent.
    pub open spec fn multiplies_powers(self, x: real, y: real, j: real, k: real) -> bool {
        x > 0real && y > 0real ==> {
            &&& self.power(x, k) > 0real
            &&& self.power(x * y, k) == self.power(x, k) * self.power(y, k)
            &&& self.power(x, j + k) == self.power(x, j) * self.power(x, k)
            &&& self.power(x, 1real) == x
        }
    }

    /// Whether sine and cosine are the coordinates of a point that runs round the unit circle.
    pub open spec fn runs_round(self, x: real, y: real) -> bool {
        &&& self.sine(x) * self.sine(x) + self.cosine(x) * self.cosine(x) == 1real
        &&& self.sine(x + y) == self.sine(x) * self.cosine(y) + self.cosine(x) * self.sine(y)
        &&& self.cosine(x + y) == self.cosine(x) * self.cosine(y) - self.sine(x) * self.sine(y)
        &&& 0real < x < self.pi() ==> 0real < self.sine(x) < x
    }

    /// Whether the hyperbolic tangent is the quotient of exponentials that it is.
    pub open spec fn saturates(self, x: real) -> bool {
        self.tangent(x) * (self.exponential(x + x) + 1real) == self.exponential(x + x) - 1real
    }

    /// Whether the remainder of `a` by `b` is what is left of `a`.
    pub open spec fn leaves_rest(self, a: R, b: R, rest: R) -> bool {
        exists|k: int| #[trigger] is_rest(k, self.worth(a), self.worth(b), self.worth(rest))
    }

    /// Whether every operation of the number type gives exactly what it stands for.
    pub open spec fn kept(self) -> bool {
        &&& forall|n: u64, d: u64|
            d > 0 ==> self.worth(#[trigger] R::fraction(n, d)) == n as real / d as real
        &&& forall|a: R, b: R| self.worth(#[trigger] a.spec_add(b)) == self.worth(a) + self.worth(b)
        &&& forall|a: R, b: R| self.worth(#[trigger] a.spec_sub(b)) == self.worth(a) - self.worth(b)
        &&& forall|a: R, b: R| self.worth(#[trigger] a.spec_mul(b)) == self.worth(a) * self.worth(b)
        &&& forall|a: R, b: R|
            self.worth(b) != 0real ==> self.worth(#[trigger] a.spec_euclidean_or_real_div(b))
                == self.worth(a) / self.worth(b)
        &&& forall|a: R| self.worth(#[trigger] a.spec_neg()) == -self.worth(a)
        &&& forall|a: R, b: R| #[trigger] a.spec_lt(b) == (self.worth(a) < self.worth(b))
        &&& forall|a: R, b: R| #[trigger] a.spec_le(b) == (self.worth(a) <= self.worth(b))
        &&& forall|a: R, b: R| #[trigger] a.same(b) == (self.worth(a) == self.worth(b))
        &&& forall|a: R, b: R|
            self.worth(b) > 0real ==> self.leaves_rest(a, b, #[trigger] a.remainder(b))
        &&& forall|a: R| self.worth(#[trigger] a.magnitude()) == distance(self.worth(a))
        &&& forall|a: R, b: R|
            self.worth(#[trigger] a.lesser(b)) == if self.worth(a) < self.worth(b) {
                self.worth(a)
            } else {
                self.worth(b)
            }
        &&& forall|a: R, b: R|
            self.worth(#[trigger] a.greater(b)) == if self.worth(a) < self.worth(b) {
                self.worth(b)
            } else {
                self.worth(a)
            }
        &&& forall|a: R, low: R, high: R|
            self.worth(low) <= self.worth(high) ==> self.worth(#[trigger] a.held(low, high))
                == if self.worth(a) < self.worth(low) {
                self.worth(low)
            } else if self.worth(high) < self.worth(a) {
                self.worth(high)
            } else {
                self.worth(a)
            }
        &&& forall|a: R|
            self.worth(a) >= 0real ==> {
                let root = self.worth(#[trigger] a.square_root());
                root >= 0real && root * root == self.worth(a)
            }
        &&& forall|a: R|
            {
                let root = self.worth(#[trigger] a.cube_root());
                root * root * root == self.worth(a)
            }
        &&& forall|a: R| self.worth(#[trigger] a.whole_power(2)) == self.worth(a) * self.worth(a)
        &&& forall|a: R, k: R|
            self.worth(a) > 0real ==> self.worth(#[trigger] a.power(k)) == self.power(
                self.worth(a),
                self.worth(k),
            )
        &&& forall|a: R|
            self.worth(#[trigger] a.exponential()) == self.exponential(self.worth(a))
        &&& forall|a: R| self.worth(#[trigger] a.sine()) == self.sine(self.worth(a))
        &&& forall|a: R| self.worth(#[trigger] a.cosine()) == self.cosine(self.worth(a))
        &&& forall|a: R|
            self.worth(#[trigger] a.hyperbolic_tangent()) == self.tangent(self.worth(a))
        &&& forall|a: R|
            0real <= self.worth(a) < 4294967295real ==> {
                let n = #[trigger] a.whole();
                n as real <= self.worth(a) < n as real + 1real
            }
        &&& forall|a: R| self.worth(a) < 0real ==> #[trigger] a.whole() == 0
        &&& forall|x: real, y: real| #[trigger] self.grows_exponentially(x, y)
        &&& forall|x: real, y: real, j: real, k: real| #[trigger]
            self.multiplies_powers(x, y, j, k)
        &&& forall|x: real, y: real| #[trigger] self.runs_round(x, y)
        &&& forall|x: real| #[trigger] self.saturates(x)
        &&& 3real < self.pi() < 4real
        &&& self.sine(self.pi()) == 0real
        &&& self.cosine(self.pi()) == -1real
    }
}

} // verus!
