//! Receiver logic for oscilloscope music: FM demodulation of tuner samples,
//! sample buffering towards the audio output, and the decisions of the
//! terminal application around them.

pub mod airspyhf;
pub mod app;
pub mod audio;
pub mod controls;
pub mod demod;
pub mod display;
pub mod file;
pub mod keys;
pub mod output;
pub mod resample;
pub mod ring;
pub mod sdr;
pub mod text;
