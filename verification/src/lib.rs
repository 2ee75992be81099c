//! Core of an engine sound synthesizer.
//!
//! A four-stroke engine is simulated sample by sample ([`engine`]); the sounds of its valves run
//! through headers and pipes ([`dsp`]) into blocks of samples ([`synth`]). A control panel sets
//! its throttle, its cylinders and its displacement ([`controls`]) and shows its readings
//! ([`display`]); both sides meet in a shared state ([`telemetry`]).
//!
//! All of it computes with any number type that offers the operations of [`number::Real`]. The
//! laws stand beside the code or in modules of their own; those that speak of the numbers that
//! come out name what they ask of the number type ([`premises`]). What a computation means is
//! stated where nothing is rounded ([`exact`]).

pub mod algebra;
pub mod call_laws;
pub mod controls;
pub mod controls_laws;
pub mod display;
pub mod dsp;
pub mod dsp_laws;
pub mod engine;
pub mod engine_laws;
pub mod exact;
pub mod exact_engine_laws;
pub mod exact_panel_laws;
pub mod exact_sound_laws;
pub mod firing;
pub mod firing_laws;
pub mod geometry_laws;
pub mod number;
pub mod pipe_laws;
pub mod premises;
pub mod reading_laws;
pub mod synth;
pub mod synth_laws;
pub mod telemetry;
