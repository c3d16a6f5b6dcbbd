//! FM demodulation.

pub mod angle;
pub mod complex;
pub mod decimate;
pub mod fm;
pub mod receiver;
pub mod stereo;

pub use decimate::StereoAudioDecimator;
pub use fm::{
    centered_iq_settings, centered_iq_settings_with_rates, optimal_settings, DemodConfig,
    RadioConfig, AUDIO_SAMPLE_RATE, MPX_SAMPLE_RATE,
};
pub use receiver::RtlFmReceiver;
