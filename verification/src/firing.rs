//! Firing orders: how far apart the cylinders are in the four-stroke cycle.
//!
//! A cycle takes two turns of the crank, an angle of 4 pi. The phase of a cylinder is how far it
//! is ahead of the first one, as a multiple of pi.

use vstd::prelude::*;

use crate::number::{deterministic, Real};

verus! {

/// The phases of the engines with a firing order of their own, in thousandths of pi; empty for
/// the others.
pub open spec fn firing_table(cylinders: int) -> Seq<u64> {
    if cylinders == 4 {
        seq![0u64, 3000, 1000, 2000]
    } else if cylinders == 6 {
        seq![0u64, 3333, 1333, 2666, 666, 2000]
    } else if cylinders == 8 {
        seq![0u64, 3500, 1500, 1000, 2500, 2000, 3000, 500]
    } else if cylinders == 10 {
        seq![0u64, 3600, 1600, 1200, 2800, 2000, 3200, 2400, 800, 400]
    } else if cylinders == 12 {
        seq![0u64, 3666, 1333, 2333, 666, 3000, 1666, 2666, 333, 2000, 1000, 3333]
    } else {
        Seq::empty()
    }
}

/// Whether engines with this many cylinders have a firing order of their own.
pub open spec fn has_firing_table(cylinders: int) -> bool {
    cylinders == 4 || cylinders == 6 || cylinders == 8 || cylinders == 10 || cylinders == 12
}

/// The phase of cylinder `i`, as a multiple of pi. Where there is no firing order the cylinders
/// follow each other at even distances.
pub open spec fn phase<R: Real>(cylinders: usize, i: int) -> R {
    if has_firing_table(cylinders as int) {
        R::fraction(firing_table(cylinders as int)[i], 1000)
    } else {
        R::fraction(i as u64, 1) * (R::fraction(4, 1) / R::fraction(cylinders as u64, 1))
    }
}

/// The entry of the firing table, as a vector.
pub fn tabulated_phases(cylinders: usize) -> (table: Vec<u64>)
    ensures
        table@ == firing_table(cylinders as int),
{
    let table: Vec<u64> = match cylinders {
        4 => vec![0, 3000, 1000, 2000],
        6 => vec![0, 3333, 1333, 2666, 666, 2000],
        8 => vec![0, 3500, 1500, 1000, 2500, 2000, 3000, 500],
        10 => vec![0, 3600, 1600, 1200, 2800, 2000, 3200, 2400, 800, 400],
        12 => vec![0, 3666, 1333, 2333, 666, 3000, 1666, 2666, 333, 2000, 1000, 3333],
        _ => Vec::new(),
    };
    assert(table@ =~= firing_table(cylinders as int));
    table
}

/// The phases of all cylinders.
pub fn firing_phases<R: Real>(cylinders: usize) -> (phases: Vec<R>)
    ensures
        phases@.len() == cylinders,
        deterministic::<R>() ==> phases@ == Seq::new(
            cylinders as nat,
            |i: int| phase::<R>(cylinders, i),
        ),
{
    let table = tabulated_phases(cylinders);
    let tabulated: bool = table.len() > 0;
    let spacing = R::ratio(4, 1).div(R::ratio(cylinders as u64, 1));
    let mut phases: Vec<R> = Vec::new();
    let mut i: usize = 0;
    while i < cylinders
        invariant
            i <= cylinders,
            table@ == firing_table(cylinders as int),
            tabulated == has_firing_table(cylinders as int),
            tabulated ==> table@.len() == cylinders,
            deterministic::<R>() ==> spacing == R::fraction(4, 1) / R::fraction(
                cylinders as u64,
                1,
            ),
            phases@.len() == i,
            deterministic::<R>() ==> phases@ == Seq::new(
                i as nat,
                |j: int| phase::<R>(cylinders, j),
            ),
        decreases cylinders - i,
    {
        if tabulated {
            phases.push(R::ratio(table[i], 1000));
        } else {
            phases.push(R::ratio(i as u64, 1).mul(spacing));
        }
        i = i + 1;
    }
    phases
}

/// The `k`-th of the evenly spaced firing points of a cycle, in whole thousandths of pi.
pub open spec fn even_point(cylinders: int, k: int) -> int {
    4000 * k / cylinders
}

/// Whether `x` is one of the evenly spaced firing points.
pub open spec fn is_even_point(cylinders: int, x: int) -> bool {
    exists|k: int| 0 <= k < cylinders && x == #[trigger] even_point(cylinders, k)
}

/// Every firing order visits each of the evenly spaced firing points of the cycle exactly once,
/// to the thousandth: it starts with the first cylinder, no two cylinders share a point, every
/// cylinder fires at one of the points, and every point has its cylinder.
pub proof fn law_firing_orders_are_even(cylinders: int)
    requires
        has_firing_table(cylinders),
    ensures
        firing_table(cylinders).len() == cylinders,
        firing_table(cylinders)[0] == 0,
        firing_table(cylinders).no_duplicates(),
        forall|i: int|
            0 <= i < cylinders ==> is_even_point(
                cylinders,
                #[trigger] firing_table(cylinders)[i] as int,
            ),
        forall|k: int|
            0 <= k < cylinders ==> firing_table(cylinders).contains(
                #[trigger] even_point(cylinders, k) as u64,
            ),
{
    let t = firing_table(cylinders);
    let p = |k: int| even_point(cylinders, k);
    if cylinders == 4 {
        assert(p(0) == t[0] && p(1) == t[2] && p(2) == t[3] && p(3) == t[1]);
    } else if cylinders == 6 {
        assert(p(0) == t[0] && p(1) == t[4] && p(2) == t[2] && p(3) == t[5] && p(4) == t[3] && p(5)
            == t[1]);
    } else if cylinders == 8 {
        assert(p(0) == t[0] && p(1) == t[7] && p(2) == t[3] && p(3) == t[2] && p(4) == t[5] && p(5)
            == t[4] && p(6) == t[6] && p(7) == t[1]);
    } else if cylinders == 10 {
        assert(p(0) == t[0] && p(1) == t[9] && p(2) == t[8] && p(3) == t[3] && p(4) == t[2] && p(5)
            == t[5] && p(6) == t[7] && p(7) == t[4] && p(8) == t[6] && p(9) == t[1]);
    } else {
        assert(p(0) == t[0] && p(1) == t[8] && p(2) == t[4] && p(3) == t[10] && p(4) == t[2] && p(5)
            == t[6] && p(6) == t[9] && p(7) == t[3] && p(8) == t[7] && p(9) == t[5] && p(10)
            == t[11] && p(11) == t[1]);
    }
}

/// Every tabulated phase lies within one cycle.
pub proof fn law_phases_lie_within_the_cycle(cylinders: int, i: int)
    requires
        has_firing_table(cylinders),
        0 <= i < cylinders,
    ensures
        0 <= firing_table(cylinders)[i] < 4000,
{
}

/// Which of the evenly spaced firing points of the cycle is that of cylinder `i`.
pub open spec fn firing_rank(cylinders: int, i: int) -> int {
    if has_firing_table(cylinders) {
        (firing_table(cylinders)[i] * cylinders + 3999) / 4000
    } else {
        i
    }
}

/// Whether some cylinder fires at the `k`-th firing point.
pub open spec fn has_cylinder(cylinders: int, k: int) -> bool {
    exists|i: int| 0 <= i < cylinders && #[trigger] firing_rank(cylinders, i) == k
}

/// Whatever the number of cylinders, each of them has a firing point of its own, the first one
/// the first, and every point has its cylinder. A tabulated phase is its point to the thousandth
/// of pi.
pub proof fn law_every_cylinder_has_its_firing_point(cylinders: int)
    requires
        cylinders >= 1,
    ensures
        firing_rank(cylinders, 0) == 0,
        forall|i: int|
            0 <= i < cylinders ==> 0 <= #[trigger] firing_rank(cylinders, i) < cylinders,
        forall|i: int, j: int|
            0 <= i < j < cylinders ==> #[trigger] firing_rank(cylinders, i)
                != #[trigger] firing_rank(cylinders, j),
        forall|k: int| 0 <= k < cylinders ==> #[trigger] has_cylinder(cylinders, k),
        has_firing_table(cylinders) ==> forall|i: int|
            0 <= i < cylinders ==> firing_table(cylinders)[i] == even_point(
                cylinders,
                #[trigger] firing_rank(cylinders, i),
            ),
{
    let r = |i: int| firing_rank(cylinders, i);
    assert forall|k: int| 0 <= k < cylinders implies #[trigger] has_cylinder(cylinders, k) by {
        if cylinders == 4 {
            assert(r(0) == 0 && r(1) == 3 && r(2) == 1 && r(3) == 2);
        } else if cylinders == 6 {
            assert(r(0) == 0 && r(1) == 5 && r(2) == 2 && r(3) == 4 && r(4) == 1 && r(5) == 3);
        } else if cylinders == 8 {
            assert(r(0) == 0 && r(1) == 7 && r(2) == 3 && r(3) == 2 && r(4) == 5 && r(5) == 4
                && r(6) == 6 && r(7) == 1);
        } else if cylinders == 10 {
            assert(r(0) == 0 && r(1) == 9 && r(2) == 4 && r(3) == 3 && r(4) == 7 && r(5) == 5
                && r(6) == 8 && r(7) == 6 && r(8) == 2 && r(9) == 1);
        } else if cylinders == 12 {
            assert(r(0) == 0 && r(1) == 11 && r(2) == 4 && r(3) == 7 && r(4) == 2 && r(5) == 9
                && r(6) == 5 && r(7) == 8 && r(8) == 1 && r(9) == 6 && r(10) == 3 && r(11) == 10);
        } else {
            assert(firing_rank(cylinders, k) == k);
        }
    }
}

} // verus!
