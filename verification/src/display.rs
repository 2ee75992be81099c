//! The control panel: what it shows of the engine, and how often.

use vstd::prelude::*;
use vstd::string::StringExecFns;

use crate::number::{deterministic, Real};
use crate::telemetry::{MAX_CYLINDERS, SharedEngineState, SharedView};

verus! {

/// The number of cells of a gauge.
pub const GAUGE_CELLS: usize = 40;

/// How long one picture of the panel stays, in nanoseconds.
pub const PICTURE_NANOS: u64 = 33_000_000;

/// The cells of a gauge with `filled` cells filled. A gauge that is filled beyond its length
/// grows.
pub open spec fn gauge(filled: usize) -> Seq<char> {
    Seq::new(
        if filled < GAUGE_CELLS {
            GAUGE_CELLS as nat
        } else {
            filled as nat
        },
        |i: int|
            if i < filled {
                '█'
            } else {
                '-'
            },
    )
}

/// How many cells of a gauge a reading fills: all at `full` and above, none at zero and below.
pub open spec fn filled_cells<R: Real>(reading: R, full: R) -> usize {
    (reading / full * R::fraction(40, 1)).held(R::fraction(0, 1), R::fraction(40, 1)).whole()
}

/// Whether the rev limiter is shown instead of the speed gauge.
pub open spec fn limiter_shown<R: Real>(rpm: R) -> bool {
    R::fraction(7950, 1) < rpm
}

/// What the speed gauge shows at the rev limit.
pub open spec fn limiter_text() -> Seq<char> {
    "|||||||||||||||| LIMITER |||||||||||||||"@
}

/// The cells of a gauge, as text.
pub fn gauge_text(filled: usize) -> (text: String)
    ensures
        text@ == gauge(filled),
{
    proof {
        reveal_strlit("█");
        reveal_strlit("-");
    }
    let mut text = String::new();
    let mut i: usize = 0;
    while i < filled
        invariant
            i <= filled,
            text@ == Seq::new(i as nat, |j: int| '█'),
            "█"@ == seq!['█'],
        decreases filled - i,
    {
        text.append("█");
        i = i + 1;
    }
    while i < GAUGE_CELLS
        invariant
            i <= GAUGE_CELLS || i == filled,
            filled <= i,
            text@ == gauge(filled).take(i as int),
            "-"@ == seq!['-'],
        decreases GAUGE_CELLS - i,
    {
        text.append("-");
        assert(text@ =~= gauge(filled).take(i + 1));
        i = i + 1;
    }
    assert(text@ =~= gauge(filled));
    text
}

/// How many cells of a gauge a reading fills.
fn cells_filled<R: Real>(reading: R, full: R) -> (cells: usize)
    ensures
        deterministic::<R>() ==> cells == filled_cells(reading, full),
{
    reading.div(full).mul(R::ratio(40, 1)).clamp(R::ratio(0, 1), R::ratio(40, 1)).to_usize()
}

/// What the speed gauge shows.
pub open spec fn speed_gauge<R: Real>(rpm: R) -> Seq<char> {
    if limiter_shown(rpm) {
        limiter_text()
    } else {
        gauge(filled_cells(rpm, R::fraction(8000, 1)))
    }
}

/// What the throttle gauge shows.
pub open spec fn throttle_gauge<R: Real>(throttle: R) -> Seq<char> {
    gauge(filled_cells(throttle, R::fraction(1, 1)))
}

/// The text of the speed gauge. Close to the rev limit it shows that the limiter is engaged.
pub fn speed_gauge_text<R: Real>(rpm: R) -> (text: String)
    ensures
        deterministic::<R>() ==> text@ == speed_gauge(rpm),
{
    if R::ratio(7950, 1).lt(rpm) {
        "|||||||||||||||| LIMITER |||||||||||||||".to_owned()
    } else {
        gauge_text(cells_filled(rpm, R::ratio(8000, 1)))
    }
}

/// The text of the throttle gauge.
pub fn throttle_gauge_text<R: Real>(throttle: R) -> (text: String)
    ensures
        deterministic::<R>() ==> text@ == throttle_gauge(throttle),
{
    gauge_text(cells_filled(throttle, R::ratio(1, 1)))
}

/// The line of the panel for one cylinder: its number, counted from one, its pressure in
/// kilopascals, and its flows.
pub struct CylinderRow<R> {
    pub number: usize,
    pub pressure_kpa: R,
    pub intake_flow: R,
    pub exhaust_flow: R,
}

/// The line for the cylinder with index `i`.
pub open spec fn row<R: Real>(shared: SharedView, i: int) -> CylinderRow<R> {
    CylinderRow {
        number: (i + 1) as usize,
        pressure_kpa: R::decoded(shared.pressures[i]) / R::fraction(1000, 1),
        intake_flow: R::decoded(shared.intake_flows[i]),
        exhaust_flow: R::decoded(shared.exhaust_flows[i]),
    }
}

/// The lines for all cylinders of the engine.
pub fn cylinder_rows<R: Real>(shared: &SharedEngineState) -> (rows: Vec<CylinderRow<R>>)
    requires
        shared.cylinders <= MAX_CYLINDERS,
    ensures
        rows@.len() == shared.cylinders,
        forall|i: int| 0 <= i < rows@.len() ==> (#[trigger] rows@[i]).number == i + 1,
        deterministic::<R>() ==> rows@ == Seq::new(
            shared.cylinders as nat,
            |i: int| row::<R>(shared@, i),
        ),
{
    let mut rows: Vec<CylinderRow<R>> = Vec::new();
    let mut i: usize = 0;
    while i < shared.cylinders
        invariant
            i <= shared.cylinders,
            shared.cylinders <= MAX_CYLINDERS,
            rows@.len() == i,
            forall|j: int| 0 <= j < i ==> (#[trigger] rows@[j]).number == j + 1,
            deterministic::<R>() ==> rows@ == Seq::new(
                i as nat,
                |j: int| row::<R>(shared@, j),
            ),
        decreases shared.cylinders - i,
    {
        rows.push(
            CylinderRow {
                number: i + 1,
                pressure_kpa: R::from_bits(shared.pressures[i]).div(R::ratio(1000, 1)),
                intake_flow: R::from_bits(shared.intake_flows[i]),
                exhaust_flow: R::from_bits(shared.exhaust_flows[i]),
            },
        );
        i = i + 1;
    }
    rows
}

/// Everything that the panel shows.
pub struct Panel<R> {
    pub cylinders: usize,
    pub displacement: R,
    pub rpm: R,
    pub speed_gauge: String,
    pub throttle_percent: R,
    pub throttle_gauge: String,
    pub rows: Vec<CylinderRow<R>>,
}

impl<R: Real> Panel<R> {
    /// The panel for the shared state and the throttle.
    pub fn new(shared: &SharedEngineState, throttle: R) -> (panel: Self)
        requires
            shared.cylinders <= MAX_CYLINDERS,
        ensures
            panel.cylinders == shared.cylinders,
            panel.rows@.len() == shared.cylinders,
            deterministic::<R>() ==> {
                &&& panel.displacement == R::decoded(shared.displacement)
                &&& panel.rpm == R::decoded(shared.rpm)
                &&& panel.speed_gauge@ == speed_gauge(R::decoded(shared.rpm))
                &&& panel.throttle_percent == throttle * R::fraction(100, 1)
                &&& panel.throttle_gauge@ == throttle_gauge(throttle)
                &&& panel.rows@ == Seq::new(
                    shared.cylinders as nat,
                    |i: int| row::<R>(shared@, i),
                )
            },
    {
        let rpm = R::from_bits(shared.rpm);
        Panel {
            cylinders: shared.cylinders,
            displacement: R::from_bits(shared.displacement),
            rpm,
            speed_gauge: speed_gauge_text(rpm),
            throttle_percent: throttle.mul(R::ratio(100, 1)),
            throttle_gauge: throttle_gauge_text(throttle),
            rows: cylinder_rows(shared),
        }
    }
}

/// How long to wait, in nanoseconds, when drawing a picture has taken `elapsed` of them: the
/// rest of its time, if there is any.
pub fn picture_pause(elapsed: u128) -> (pause: Option<u64>)
    ensures
        pause == (if elapsed < PICTURE_NANOS {
            Some((PICTURE_NANOS - elapsed) as u64)
        } else {
            None
        }),
{
    if elapsed < PICTURE_NANOS as u128 {
        Some(PICTURE_NANOS - elapsed as u64)
    } else {
        None
    }
}

/// Every gauge has the same width: one that is filled to no more than its length, and the text
/// that stands in for it at the rev limit.
pub proof fn law_gauges_have_one_width(filled: usize)
    ensures
        filled <= GAUGE_CELLS ==> gauge(filled).len() == GAUGE_CELLS,
        limiter_text().len() == GAUGE_CELLS,
{
    reveal_strlit("|||||||||||||||| LIMITER |||||||||||||||");
}

} // verus!
