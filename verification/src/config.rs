//! Engine constants and the rules a configuration must satisfy.
//!
//! The engine works at 16 kHz mono with 32 ms analysis windows and 50%
//! overlap. The tuning knobs themselves are real numbers; what is decided
//! here is which rule a configuration breaks first.

use vstd::prelude::*;
use vstd::string::StringExecFns;

verus! {

/// Output sample rate the engine always emits, regardless of capture rate.
pub const OUTPUT_SAMPLE_RATE: u32 = 16000;

/// STFT frame size in samples (at [`OUTPUT_SAMPLE_RATE`]): 32 ms.
pub const FFT_SIZE: usize = 512;

/// Hop size (50% overlap): 16 ms of new audio per processed frame.
pub const HOP_SIZE: usize = 256;

/// Number of magnitude bins per frame (`FFT_SIZE / 2 + 1`).
pub const N_BINS: usize = 257;

/// Highest accepted input sample rate.
pub const MAX_INPUT_SAMPLE_RATE: u32 = 384000;

/// Reasons a configuration was rejected.
#[derive(Debug, Clone, PartialEq, Eq)]
pub enum ConfigError {
    /// `input_sample_rate` was 0 or implausibly high (> 384 kHz).
    BadSampleRate,
    /// A 0.0..=1.0 knob was outside that range; the knob's name.
    OutOfRange(&'static str),
}

impl ConfigError {
    /// The human-readable text of the error.
    pub fn message(&self) -> (m: String)
        ensures
            m@ == match self {
                ConfigError::BadSampleRate => "input_sample_rate must be 1..=384000"@,
                ConfigError::OutOfRange(name) => name@ + " must be within 0.0..=1.0"@,
            },
    {
        match self {
            ConfigError::BadSampleRate => String::from_str("input_sample_rate must be 1..=384000"),
            ConfigError::OutOfRange(name) => {
                let mut m = String::from_str(*name);
                m.append(" must be within 0.0..=1.0");
                m
            },
        }
    }
}

/// For each unit-range knob, whether its value lies within `0.0..=1.0`.
pub struct UnitKnobs {
    pub denoise_strength: bool,
    pub speaker_focus: bool,
    pub speaker_gate_floor: bool,
    pub proximity_focus: bool,
}

/// The sample rate is accepted: `1..=384000` Hz.
pub open spec fn sample_rate_ok(rate: u32) -> bool {
    1 <= rate <= MAX_INPUT_SAMPLE_RATE
}

/// Checks a configuration: the sample rate first, then the unit-range knobs
/// in the order denoise strength, speaker focus, speaker gate floor,
/// proximity focus; the first rule broken is reported.
pub fn validate_settings(input_sample_rate: u32, knobs: &UnitKnobs) -> (r: Result<(), ConfigError>)
    ensures
        !sample_rate_ok(input_sample_rate) ==> r == Err::<(), ConfigError>(
            ConfigError::BadSampleRate,
        ),
        sample_rate_ok(input_sample_rate) && !knobs.denoise_strength ==> r == Err::<
            (),
            ConfigError,
        >(ConfigError::OutOfRange("denoise_strength")),
        sample_rate_ok(input_sample_rate) && knobs.denoise_strength && !knobs.speaker_focus ==> r
            == Err::<(), ConfigError>(ConfigError::OutOfRange("speaker_focus")),
        sample_rate_ok(input_sample_rate) && knobs.denoise_strength && knobs.speaker_focus
            && !knobs.speaker_gate_floor ==> r == Err::<(), ConfigError>(
            ConfigError::OutOfRange("speaker_gate_floor"),
        ),
        sample_rate_ok(input_sample_rate) && knobs.denoise_strength && knobs.speaker_focus
            && knobs.speaker_gate_floor && !knobs.proximity_focus ==> r == Err::<(), ConfigError>(
            ConfigError::OutOfRange("proximity_focus"),
        ),
        r is Ok <==> sample_rate_ok(input_sample_rate) && knobs.denoise_strength
            && knobs.speaker_focus && knobs.speaker_gate_floor && knobs.proximity_focus,
{
    if input_sample_rate == 0 || input_sample_rate > MAX_INPUT_SAMPLE_RATE {
        return Err(ConfigError::BadSampleRate);
    }
    if !knobs.denoise_strength {
        return Err(ConfigError::OutOfRange("denoise_strength"));
    }
    if !knobs.speaker_focus {
        return Err(ConfigError::OutOfRange("speaker_focus"));
    }
    if !knobs.speaker_gate_floor {
        return Err(ConfigError::OutOfRange("speaker_gate_floor"));
    }
    if !knobs.proximity_focus {
        return Err(ConfigError::OutOfRange("proximity_focus"));
    }
    Ok(())
}

} // verus!
