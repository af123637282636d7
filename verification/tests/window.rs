use music_speed::window::get_windows;
use music_speed::{Configuration, ConfigurationError, EngineError};

fn conf(time_interval: usize, analysis_interval: usize, min_bpm: usize, max_bpm: usize) -> Configuration {
    Configuration {
        file_path: String::from("track.mp3"),
        time_interval,
        analysis_interval,
        min_bpm,
        max_bpm,
        verbose: 0,
    }
}

#[test]
fn window_count_follows_the_formula() {
    // rate 1000: window_size 2000, stride 1000, lag_min 500, lag_max 1000.
    let c = conf(1000, 2000, 60, 120);
    let v = get_windows(&c, 1000, 5000).unwrap();
    assert_eq!(v.len(), 2);
}

#[test]
fn descriptors_have_the_expected_geometry() {
    let c = conf(1000, 2000, 60, 120);
    let v = get_windows(&c, 1000, 5000).unwrap();
    assert_eq!(v[0].index, 0);
    assert_eq!(v[0].base_start, 0);
    assert_eq!(v[0].base_len, 2000);
    assert_eq!(v[0].search_start, 500);
    assert_eq!(v[0].search_len, 2500);
    assert_eq!(v[1].index, 1);
    assert_eq!(v[1].base_start, 1000);
    assert_eq!(v[1].base_len, 2000);
    assert_eq!(v[1].search_start, 1500);
    assert_eq!(v[1].search_len, 2500);
}

#[test]
fn signal_exactly_at_the_boundary_yields_no_window() {
    let c = conf(1000, 2000, 60, 120);
    let v = get_windows(&c, 1000, 3000).unwrap();
    assert!(v.is_empty());
}

#[test]
fn signal_below_the_boundary_yields_no_window() {
    let c = conf(1000, 2000, 60, 120);
    let v = get_windows(&c, 1000, 2999).unwrap();
    assert!(v.is_empty());
}

#[test]
fn one_more_stride_yields_one_more_window() {
    let c = conf(1000, 2000, 60, 120);
    let v = get_windows(&c, 1000, 4000).unwrap();
    assert_eq!(v.len(), 1);
}

#[test]
fn zero_sample_rate_gives_zero_window_size() {
    let c = conf(1000, 2000, 60, 120);
    match get_windows(&c, 0, 5000) {
        Err(e) => assert_eq!(
            e,
            EngineError::Configuration(ConfigurationError::ZeroWindowSize)
        ),
        Ok(_) => panic!("expected a configuration error"),
    }
}

#[test]
fn sub_millisecond_stride_is_rejected() {
    // rate 1, time_interval 500 ms: stride 0; analysis_interval 2000 ms keeps
    // the window size at 2 samples.
    let c = conf(500, 2000, 60, 120);
    match get_windows(&c, 1, 5000) {
        Err(e) => assert_eq!(e, EngineError::Configuration(ConfigurationError::ZeroStride)),
        Ok(_) => panic!("expected a configuration error"),
    }
}

#[test]
fn max_bpm_beyond_the_sample_rate_is_rejected() {
    // rate 1: even the fastest sought tempo has a beat period of 0 samples.
    let c = conf(1000, 1000, 60, 120);
    match get_windows(&c, 1, 5000) {
        Err(e) => assert_eq!(e, EngineError::Configuration(ConfigurationError::MaxBpmTooHigh)),
        Ok(_) => panic!("expected a configuration error"),
    }
}

#[test]
fn lag_range_that_rounds_empty_is_rejected() {
    // rate 1000: lag_max = 60000/999 = 60, lag_min = 60000/1000 = 60.
    let c = conf(1000, 2000, 999, 1000);
    match get_windows(&c, 1000, 100000) {
        Err(e) => assert_eq!(e, EngineError::Configuration(ConfigurationError::EmptyLagRange)),
        Ok(_) => panic!("expected a configuration error"),
    }
}

#[test]
fn time_axis_overflow_is_rejected() {
    // rate 1, huge intervals: enough windows that the last one's position
    // in milliseconds would not fit in 64 bits.
    let c = conf(1 << 62, 1 << 62, 1, 2);
    match get_windows(&c, 1, usize::MAX) {
        Err(e) => assert_eq!(e, EngineError::Configuration(ConfigurationError::TimeOverflow)),
        Ok(_) => panic!("expected a configuration error"),
    }
}
