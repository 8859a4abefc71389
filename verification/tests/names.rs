use pitch_core::backends::{available_backends, unknown_backend_message_for, Backend};
use pitch_core::crepe::Capacity;
use pitch_core::swiftf0::{Mode, SwiftF0Config};
use pitch_core::text::{decimal_string, str_equals};
use pitch_core::EstimatorError;

#[test]
fn capacity_parse_accepts_every_short_name() {
    let all = [
        Capacity::Tiny,
        Capacity::Small,
        Capacity::Medium,
        Capacity::Large,
        Capacity::Full,
    ];
    for c in all {
        assert_eq!(Capacity::parse(c.short()), Ok(c));
    }
    assert_eq!(Capacity::parse("tiny"), Ok(Capacity::Tiny));
    assert_eq!(Capacity::Medium.short(), "medium");
}

#[test]
fn capacity_parse_rejects_unknown_names() {
    assert_eq!(
        Capacity::parse("huge"),
        Err("unknown crepe capacity: huge; expected tiny|small|medium|large|full".to_string())
    );
    assert!(Capacity::parse("Tiny").is_err());
    assert!(Capacity::parse("").is_err());
    assert!(Capacity::parse("tiny ").is_err());
}

#[test]
fn mode_parse_and_presets() {
    assert_eq!(Mode::parse("balanced"), Ok(Mode::Balanced));
    assert_eq!(Mode::parse("low_latency"), Ok(Mode::LowLatency));
    assert_eq!(Mode::parse("progressive"), Ok(Mode::Progressive));
    assert_eq!(
        Mode::parse("fast"),
        Err("unknown mode: fast; supported: balanced, low_latency, progressive".to_string())
    );
    assert_eq!(Mode::Balanced.streaming_params(), (1024, 1024, false, 0));
    assert_eq!(Mode::LowLatency.streaming_params(), (1792, 256, false, 0));
    assert_eq!(Mode::Progressive.streaming_params(), (1792, 256, true, 3));
}

#[test]
fn every_mode_preset_passes_validation() {
    for m in [Mode::Balanced, Mode::LowLatency, Mode::Progressive] {
        let (c, f, p, s) = m.streaming_params();
        let cfg = SwiftF0Config::from_params(c, f, p, s).expect("preset must be valid");
        assert_eq!(cfg, SwiftF0Config::from_mode(m));
    }
}

#[test]
fn swiftf0_params_not_multiple_of_hop() {
    match SwiftF0Config::from_params(100, 256, false, 0) {
        Err(EstimatorError::InvalidInput(m)) => assert_eq!(
            m,
            "context_samples (100) and min_fresh_samples (256) must be multiples of hop (256)"
        ),
        other => panic!("unexpected {:?}", other),
    }
    match SwiftF0Config::from_params(512, 1000, true, 0) {
        Err(EstimatorError::InvalidInput(m)) => assert_eq!(
            m,
            "context_samples (512) and min_fresh_samples (1000) must be multiples of hop (256)"
        ),
        other => panic!("unexpected {:?}", other),
    }
}

#[test]
fn swiftf0_params_zero_fresh() {
    match SwiftF0Config::from_params(0, 0, false, 0) {
        Err(EstimatorError::InvalidInput(m)) => assert_eq!(m, "min_fresh_samples must be > 0"),
        other => panic!("unexpected {:?}", other),
    }
}

#[test]
fn swiftf0_params_progressive_needs_settle_lag() {
    match SwiftF0Config::from_params(256, 256, true, 0) {
        Err(EstimatorError::InvalidInput(m)) => {
            assert_eq!(m, "progressive mode requires settle_lag_frames >= 1")
        }
        other => panic!("unexpected {:?}", other),
    }
    let ok = SwiftF0Config::from_params(0, 256, true, 1).unwrap();
    assert_eq!(ok.context_samples, 0);
    assert_eq!(ok.min_fresh_samples, 256);
    assert!(ok.progressive);
    assert_eq!(ok.settle_lag_frames, 1);
}

#[test]
fn decimal_rendering_matches_formatting() {
    for n in [0usize, 7, 10, 99, 256, 1000, 123456789, usize::MAX] {
        assert_eq!(decimal_string(n), format!("{}", n));
    }
}

#[test]
fn string_equality() {
    assert!(str_equals("abc", "abc"));
    assert!(!str_equals("abc", "abd"));
    assert!(!str_equals("abc", "ab"));
    assert!(str_equals("", ""));
    assert!(str_equals("héllo", "héllo"));
}

#[test]
fn backend_lookup_follows_build_flags() {
    assert_eq!(Backend::parse("swipe", false, false), Some(Backend::Swipe));
    assert_eq!(Backend::parse("praat_ac", false, false), Some(Backend::PraatAc));
    assert_eq!(Backend::parse("crepe", false, false), None);
    assert_eq!(Backend::parse("crepe", true, false), Some(Backend::Crepe));
    assert_eq!(Backend::parse("pesto", true, false), None);
    assert_eq!(Backend::parse("pesto", true, true), Some(Backend::Pesto));
    assert_eq!(Backend::parse("pesto", false, true), None);
    assert_eq!(Backend::parse("yin", true, true), None);
}

#[test]
fn backend_names_round_trip_and_are_listed() {
    for (onnx, pesto) in [(false, false), (true, false), (true, true)] {
        for name in available_backends(onnx, pesto) {
            let b = Backend::parse(name, onnx, pesto).expect("listed name must parse");
            assert_eq!(b.name(), name);
        }
    }
    assert_eq!(available_backends(false, false), vec!["swipe", "pyin", "praat_ac"]);
    assert_eq!(
        available_backends(true, false),
        vec!["swipe", "pyin", "praat_ac", "swiftf0", "crepe", "rmvpe", "fcpe"]
    );
    assert_eq!(available_backends(true, true).len(), 8);
}

#[test]
fn unknown_backend_message_lists_available() {
    assert_eq!(
        unknown_backend_message_for("foo", false, false),
        "unknown or disabled algorithm: foo; available in this build: swipe, pyin, praat_ac"
    );
    assert_eq!(
        unknown_backend_message_for("x", true, true),
        "unknown or disabled algorithm: x; available in this build: swipe, pyin, praat_ac, swiftf0, crepe, rmvpe, fcpe, pesto"
    );
}
