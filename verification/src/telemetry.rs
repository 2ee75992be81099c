//! The state that the control panel and the sound engine share.

use vstd::prelude::*;

verus! {

/// The largest number of cylinders an engine can have.
pub const MAX_CYLINDERS: usize = 16;

/// The word for the number zero.
pub const ZERO_WORD: u64 = 0;

/// The word for the number one.
pub const ONE_WORD: u64 = 0x3ff0_0000_0000_0000;

/// The word for the atmospheric pressure, 101325 pascals.
pub const ATMOSPHERE_WORD: u64 = 0x40f8_bcd0_0000_0000;

/// The settings of the engine and its latest readings.
///
/// Every number but the cylinder count is held as the word of an IEEE 754 double, so that each
/// of the fields can be exchanged between two threads in one atomic access.
pub struct SharedEngineState {
    pub throttle: u64,
    pub rpm: u64,
    pub cylinders: usize,
    pub displacement: u64,
    pub pressures: [u64; MAX_CYLINDERS],
    pub exhaust_flows: [u64; MAX_CYLINDERS],
    pub intake_flows: [u64; MAX_CYLINDERS],
}

/// What a [`SharedEngineState`] is, with its arrays as sequences.
#[verifier::ext_equal]
pub struct SharedView {
    pub throttle: u64,
    pub rpm: u64,
    pub cylinders: usize,
    pub displacement: u64,
    pub pressures: Seq<u64>,
    pub exhaust_flows: Seq<u64>,
    pub intake_flows: Seq<u64>,
}

impl View for SharedEngineState {
    type V = SharedView;

    open spec fn view(&self) -> SharedView {
        SharedView {
            throttle: self.throttle,
            rpm: self.rpm,
            cylinders: self.cylinders,
            displacement: self.displacement,
            pressures: self.pressures@,
            exhaust_flows: self.exhaust_flows@,
            intake_flows: self.intake_flows@,
        }
    }
}

impl SharedView {
    /// Whether the cylinder count is one that the controls can reach.
    pub open spec fn well_formed(self) -> bool {
        1 <= self.cylinders <= MAX_CYLINDERS
    }
}

/// The shared state of an eight-cylinder engine of unit displacement that stands still at closed
/// throttle.
pub open spec fn fresh_state() -> SharedView {
    SharedView {
        throttle: ZERO_WORD,
        rpm: ZERO_WORD,
        cylinders: 8,
        displacement: ONE_WORD,
        pressures: Seq::new(MAX_CYLINDERS as nat, |i: int| ATMOSPHERE_WORD),
        exhaust_flows: Seq::new(MAX_CYLINDERS as nat, |i: int| ZERO_WORD),
        intake_flows: Seq::new(MAX_CYLINDERS as nat, |i: int| ZERO_WORD),
    }
}

impl SharedEngineState {
    /// An eight-cylinder engine of unit displacement that stands still at closed throttle.
    pub fn new() -> (state: Self)
        ensures
            state@.well_formed(),
            state@ == fresh_state(),
    {
        SharedEngineState {
            throttle: ZERO_WORD,
            rpm: ZERO_WORD,
            cylinders: 8,
            displacement: ONE_WORD,
            pressures: [ATMOSPHERE_WORD; MAX_CYLINDERS],
            exhaust_flows: [ZERO_WORD; MAX_CYLINDERS],
            intake_flows: [ZERO_WORD; MAX_CYLINDERS],
        }
    }
}

} // verus!
