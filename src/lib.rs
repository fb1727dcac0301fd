//! A generative control-signal engine: pitch and trigger generators that are
//! advanced on a musical clock, and the state machine that turns their output
//! into MIDI note events.

pub mod pitch;
pub mod module;
mod rng;
pub mod sequencer;
