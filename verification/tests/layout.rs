use voicecore::bands::{BandEmbedder, BANDS};
use voicecore::config::{validate_settings, ConfigError, UnitKnobs, N_BINS};

fn float_layout(n_bins: usize) -> Vec<(usize, usize)> {
    let mut bands = Vec::with_capacity(BANDS);
    let lo = 1.0f32.ln();
    let hi = (n_bins as f32 - 1.0).max(2.0).ln();
    let mut prev = 1usize;
    for b in 1..=BANDS {
        let edge = (lo + (hi - lo) * b as f32 / BANDS as f32).exp();
        let end = (edge.round() as usize).clamp(prev + 1, n_bins);
        bands.push((prev, end));
        prev = end;
    }
    bands
}

#[test]
fn band_layout_matches_log_spacing_for_engine_bins() {
    let emb = BandEmbedder::new(N_BINS);
    assert_eq!(emb.dim(), 24);
    assert_eq!(emb.bands().clone(), float_layout(N_BINS));
}

#[test]
fn band_layout_engine_values() {
    let emb = BandEmbedder::new(257);
    let b = emb.bands();
    assert_eq!(b[0], (1, 2));
    assert_eq!(b[23], (203, 256));
    for w in b.windows(2) {
        assert_eq!(w[0].1, w[1].0);
        assert!(w[1].1 > w[1].0);
    }
}

#[test]
fn band_layout_small_and_large_spectra() {
    for n in [25usize, 33, 65, 129, 513, 1025] {
        assert_eq!(BandEmbedder::new(n).bands().clone(), float_layout(n), "n_bins {n}");
    }
}

#[test]
fn band_layout_needs_a_bin_per_band() {
    assert!(BandEmbedder::try_new(24).is_none());
    assert!(BandEmbedder::try_new(0).is_none());
    assert!(BandEmbedder::try_new(25).is_some());
}

fn all_ok() -> UnitKnobs {
    UnitKnobs { denoise_strength: true, speaker_focus: true, speaker_gate_floor: true, proximity_focus: true }
}

#[test]
fn rejects_invalid_config() {
    assert!(validate_settings(0, &all_ok()).is_err());
}

#[test]
fn config_rules_in_order() {
    assert_eq!(validate_settings(48_000, &all_ok()), Ok(()));
    assert_eq!(validate_settings(384_000, &all_ok()), Ok(()));
    assert_eq!(validate_settings(384_001, &all_ok()), Err(ConfigError::BadSampleRate));
    let mut k = all_ok();
    k.speaker_focus = false;
    k.proximity_focus = false;
    assert_eq!(validate_settings(16_000, &k), Err(ConfigError::OutOfRange("speaker_focus")));
    assert_eq!(validate_settings(0, &k), Err(ConfigError::BadSampleRate));
    let mut k = all_ok();
    k.speaker_gate_floor = false;
    assert_eq!(validate_settings(1, &k), Err(ConfigError::OutOfRange("speaker_gate_floor")));
    let mut k = all_ok();
    k.denoise_strength = false;
    assert_eq!(validate_settings(1, &k), Err(ConfigError::OutOfRange("denoise_strength")));
    let mut k = all_ok();
    k.proximity_focus = false;
    assert_eq!(validate_settings(1, &k), Err(ConfigError::OutOfRange("proximity_focus")));
}

#[test]
fn band_layout_defined_from_25_bins() {
    for n in 0usize..25 {
        assert!(BandEmbedder::try_new(n).is_none(), "n_bins {n}");
    }
    for n in 25usize..300 {
        let e = BandEmbedder::try_new(n).expect("layout defined");
        assert_eq!(e.bands().len(), BANDS);
        assert!(e.bands()[BANDS - 1].1 <= n, "n_bins {n}");
        assert_eq!(e.bands().clone(), float_layout(n), "n_bins {n}");
    }
}

#[test]
fn config_error_messages() {
    assert_eq!(ConfigError::BadSampleRate.message(), "input_sample_rate must be 1..=384000");
    assert_eq!(
        ConfigError::OutOfRange("speaker_focus").message(),
        "speaker_focus must be within 0.0..=1.0"
    );
}
