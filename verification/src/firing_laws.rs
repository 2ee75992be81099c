//! Where the cylinders stand in the cycle, by the numbers that come out.

use vstd::prelude::*;

use crate::engine::EngineView;
use crate::firing::{
    even_point, firing_rank, firing_table, has_firing_table,
    law_every_cylinder_has_its_firing_point, phase,
};
use crate::number::Real;
use crate::premises::Rounding;
use crate::telemetry::MAX_CYLINDERS;

verus! {

/// The `k`-th of the evenly spaced firing points of a cycle, as a multiple of pi.
pub open spec fn grid_point(cylinders: int, k: int) -> real {
    4real * (k as real) / (cylinders as real)
}

proof fn lemma_table_is_close(cylinders: int, i: int)
    requires
        has_firing_table(cylinders),
        0 <= i < cylinders,
    ensures
        0 <= 3 * (4000 * firing_rank(cylinders, i) - firing_table(cylinders)[i] * cylinders) <= 2
            * cylinders,
        firing_table(cylinders)[i] == 0 || 333 <= firing_table(cylinders)[i] <= 3666,
        firing_table(cylinders)[i] == 0 <==> i == 0,
{
    law_every_cylinder_has_its_firing_point(cylinders);
    let k = firing_rank(cylinders, i);
    assert(firing_table(cylinders)[i] == even_point(cylinders, k));
}

proof fn lemma_quotient_is_close(t: int, k: int, c: int)
    requires
        4 <= c <= 12,
        0 <= 3 * (4000 * k - t * c) <= 2 * c,
    ensures
        0real <= grid_point(c, k) - t as real / 1000real <= 2real / 3000real,
{
    let g = grid_point(c, k);
    let q = t as real / 1000real;
    let e = 4000 * k - t * c;
    assert((t * c) as real == (t as real) * (c as real)) by (nonlinear_arith);
    assert(g * (c as real) == 4real * (k as real)) by (nonlinear_arith)
        requires
            g == 4real * (k as real) / (c as real),
            c as real >= 4real,
    ;
    assert((g - q) * (c as real) * 1000real == e as real) by (nonlinear_arith)
        requires
            g * (c as real) == 4real * (k as real),
            q == t as real / 1000real,
            (t * c) as real == (t as real) * (c as real),
            e as real == 4000real * (k as real) - (t * c) as real,
    ;
    assert(0real <= g - q <= 2real / 3000real) by (nonlinear_arith)
        requires
            (g - q) * (c as real) * 1000real == e as real,
            0real <= 3real * (e as real) <= 2real * (c as real),
            c as real >= 4real,
    ;
}

/// The phase of a cylinder is within seven tenths of a thousandth of its firing point.
proof fn lemma_phase_is_close<R: Real>(rounding: Rounding<R>, cylinders: usize, i: int)
    requires
        rounding.kept(),
        1 <= cylinders <= MAX_CYLINDERS,
        0 <= i < cylinders,
    ensures
        ({
            let f = rounding.worth(phase::<R>(cylinders, i));
            let g = grid_point(cylinders as int, firing_rank(cylinders as int, i));
            &&& rounding.is_finite(phase::<R>(cylinders, i))
            &&& f - g <= 7real / 10000real
            &&& g - f <= 7real / 10000real
            &&& f == 0real || 1real / 5real <= f <= 4real
            &&& i == 0 ==> f == 0real
        }),
{
    let u = rounding.unit;
    let c = cylinders as int;
    let k = firing_rank(c, i);
    let g = grid_point(c, k);
    if has_firing_table(c) {
        let t = firing_table(c)[i];
        let q = t as real / 1000real;
        lemma_table_is_close(c, i);
        lemma_quotient_is_close(t as int, k, c);
        assert(rounding.in_range(q));
        let f = rounding.worth(R::fraction(t, 1000));
        assert(rounding.rounds(q, R::fraction(t, 1000)));
        assert(u * q <= q / 1000000real) by (nonlinear_arith)
            requires
                0real < u <= 1real / 1000000real,
                q >= 0real,
        ;
    } else {
        let four = R::fraction(4, 1);
        let count = R::fraction(cylinders as u64, 1);
        let index = R::fraction(i as u64, 1);
        let n = cylinders as u64 as real;
        let m = i as u64 as real;
        let exact = 4real / n;
        assert(rounding.in_range(4real / 1real));
        assert(rounding.in_range(n / 1real));
        assert(rounding.in_range(m / 1real));
        assert(rounding.is_finite(four) && rounding.is_finite(count) && rounding.is_finite(index));
        assert(1real / 4real <= exact <= 4real && exact * n == 4real) by (nonlinear_arith)
            requires
                exact == 4real / n,
                1real <= n <= 16real,
        ;
        let spacing = four.spec_euclidean_or_real_div(count);
        let s = rounding.worth(spacing);
        assert(rounding.rounds(exact, spacing));
        assert(u * exact <= exact / 1000000real) by (nonlinear_arith)
            requires
                0real < u <= 1real / 1000000real,
                exact >= 0real,
        ;
        let point = m * exact;
        assert(g == point && 0real <= point <= 15real / 4real && (m >= 1real ==> point >= 1real
            / 4real)) by (nonlinear_arith)
            requires
                g == 4real * m / n,
                point == m * exact,
                exact == 4real / n,
                1real <= n <= 16real,
                0real <= m <= n - 1real,
        ;
        let x = m * s;
        assert(x - point <= point / 1000000real && point - x <= point / 1000000real)
            by (nonlinear_arith)
            requires
                x == m * s,
                point == m * exact,
                m >= 0real,
                s - exact <= exact / 1000000real,
                exact - s <= exact / 1000000real,
        ;
        assert(m == 0real ==> x == 0real) by (nonlinear_arith)
            requires
                x == m * s,
        ;
        assert(rounding.in_range(x));
        let f = index.spec_mul(spacing);
        assert(rounding.rounds(x, f));
        assert(u * x <= x / 1000000real) by (nonlinear_arith)
            requires
                0real < u <= 1real / 1000000real,
                x >= 0real,
        ;
    }
}

/// The offset of a cylinder is within a thousandth of pi of its firing point.
proof fn lemma_offset_is_close<R: Real>(
    rounding: Rounding<R>,
    engine: EngineView<R>,
    cylinders: usize,
    scale: R,
    i: int,
)
    requires
        rounding.kept(),
        1 <= cylinders <= MAX_CYLINDERS,
        0 <= i < cylinders,
    ensures
        ({
            let offset = engine.reconfigured(cylinders, scale).phase_offsets[i];
            let pi = rounding.worth(R::circle());
            let point = grid_point(cylinders as int, firing_rank(cylinders as int, i)) * pi;
            &&& rounding.is_finite(offset)
            &&& rounding.worth(offset) >= 0real
            &&& i == 0 ==> rounding.worth(offset) == 0real
            &&& rounding.worth(offset) - point <= pi / 1000real
            &&& point - rounding.worth(offset) <= pi / 1000real
        }),
{
    let u = rounding.unit;
    let part = phase::<R>(cylinders, i);
    let offset = part.spec_mul(R::circle());
    let f = rounding.worth(part);
    let pi = rounding.worth(R::circle());
    let g = grid_point(cylinders as int, firing_rank(cylinders as int, i));
    lemma_phase_is_close(rounding, cylinders, i);
    let x = f * pi;
    assert(0real <= x <= 16real && (f == 0real ==> x == 0real) && (f >= 1real / 5real ==> x >= 3real
        / 5real)) by (nonlinear_arith)
        requires
            x == f * pi,
            3real <= pi <= 4real,
            f == 0real || 1real / 5real <= f <= 4real,
    ;
    assert(rounding.in_range(x));
    assert(rounding.rounds(x, offset));
    assert(u * x <= x / 1000000real) by (nonlinear_arith)
        requires
            0real < u <= 1real / 1000000real,
            x >= 0real,
    ;
    let point = g * pi;
    assert(x - point <= 7real / 10000real * pi && point - x <= 7real / 10000real * pi && x <= 4real
        * pi) by (nonlinear_arith)
        requires
            x == f * pi,
            point == g * pi,
            3real <= pi <= 4real,
            f <= 4real,
            f - g <= 7real / 10000real,
            g - f <= 7real / 10000real,
    ;
}

proof fn lemma_points_are_apart(cylinders: int, k1: int, k2: int, pi: real)
    requires
        1 <= cylinders <= 16,
        0 <= k1 < k2,
        3real <= pi,
    ensures
        grid_point(cylinders, k2) * pi - grid_point(cylinders, k1) * pi >= pi / 4real,
{
    let n = cylinders as real;
    let a = grid_point(cylinders, k1);
    let b = grid_point(cylinders, k2);
    assert(b - a >= 1real / 4real) by (nonlinear_arith)
        requires
            a == 4real * (k1 as real) / n,
            b == 4real * (k2 as real) / n,
            1real <= n <= 16real,
            k2 as real >= k1 as real + 1real,
    ;
    assert(b * pi - a * pi >= pi / 4real) by (nonlinear_arith)
        requires
            b - a >= 1real / 4real,
            3real <= pi,
    ;
}

/// The offsets of the cylinders fill the cycle evenly, for every number of cylinders: the first
/// is zero, all of them lie within the cycle, no two are equal, and each is within a thousandth
/// of pi of its own firing point.
pub proof fn law_offsets_fill_the_cycle_evenly<R: Real>(
    rounding: Rounding<R>,
    engine: EngineView<R>,
    cylinders: usize,
    scale: R,
)
    requires
        rounding.kept(),
        1 <= cylinders <= MAX_CYLINDERS,
    ensures
        ({
            let offsets = engine.reconfigured(cylinders, scale).phase_offsets;
            let pi = rounding.worth(R::circle());
            let n = cylinders as int;
            &&& rounding.worth(offsets[0]) == 0real
            &&& forall|i: int|
                0 <= i < n ==> 0real <= rounding.worth(#[trigger] offsets[i]) < 4real * pi
            &&& forall|i: int, j: int|
                0 <= i < j < n ==> rounding.worth(#[trigger] offsets[i]) != rounding.worth(
                    #[trigger] offsets[j],
                )
            &&& forall|i: int|
                0 <= i < n ==> {
                    let point = grid_point(n, firing_rank(n, i)) * pi;
                    &&& rounding.worth(#[trigger] offsets[i]) - point <= pi / 1000real
                    &&& point - rounding.worth(offsets[i]) <= pi / 1000real
                }
        }),
{
    let offsets = engine.reconfigured(cylinders, scale).phase_offsets;
    let pi = rounding.worth(R::circle());
    let n = cylinders as int;
    law_every_cylinder_has_its_firing_point(n);
    lemma_offset_is_close(rounding, engine, cylinders, scale, 0);
    assert forall|i: int| 0 <= i < n implies {
        let point = grid_point(n, firing_rank(n, i)) * pi;
        &&& 0real <= rounding.worth(#[trigger] offsets[i]) < 4real * pi
        &&& rounding.worth(offsets[i]) - point <= pi / 1000real
        &&& point - rounding.worth(offsets[i]) <= pi / 1000real
    } by {
        lemma_offset_is_close(rounding, engine, cylinders, scale, i);
        lemma_points_are_apart(n, firing_rank(n, i), n, pi);
        assert(grid_point(n, n) == 4real) by (nonlinear_arith)
            requires
                grid_point(n, n) == 4real * (n as real) / (n as real),
                n as real >= 1real,
        ;
    }
    assert forall|i: int, j: int| 0 <= i < j < n implies rounding.worth(#[trigger] offsets[i])
        != rounding.worth(#[trigger] offsets[j]) by {
        let a = firing_rank(n, i);
        let b = firing_rank(n, j);
        assert(a != b);
        if a < b {
            lemma_points_are_apart(n, a, b, pi);
        } else {
            lemma_points_are_apart(n, b, a, pi);
        }
    }
}

} // verus!
