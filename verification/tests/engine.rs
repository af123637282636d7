use music_speed::engine::make_events;
use music_speed::{
    analyse, analyse_sync, Configuration, ConfigurationError, DecodeError, EngineError, Frame,
    State, VecSink, BPM,
};

fn conf() -> Configuration {
    // rate 100 below: window_size 100, stride 100, lag_min 50, lag_max 100.
    Configuration {
        file_path: String::from("track.mp3"),
        time_interval: 1000,
        analysis_interval: 1000,
        min_bpm: 60,
        max_bpm: 120,
        verbose: 0,
    }
}

fn pulse_train(len: usize, period: usize) -> Vec<i16> {
    let mut data: Vec<i16> = vec![0; len];
    let mut i = 0;
    while i < len {
        data[i] = 1000;
        i += period;
    }
    data
}

#[test]
fn pulse_train_at_120_bpm_is_estimated_exactly() {
    // Pulses every 50 samples at 100 Hz: 120 beats per minute. 400 samples
    // give (400 - 100 - 100) / 100 = 2 windows.
    let frames = vec![Frame { data: pulse_train(400, 50), channels: 1, sample_rate: 100 }];
    let result = analyse_sync(&conf(), &frames).unwrap();
    assert_eq!(
        result,
        vec![
            BPM { time_ms: 0, bpm_milli: 120000 },
            BPM { time_ms: 1000, bpm_milli: 120000 },
        ]
    );
}

#[test]
fn two_runs_give_identical_results() {
    let frames = vec![Frame { data: pulse_train(400, 50), channels: 1, sample_rate: 100 }];
    let c = conf();
    assert_eq!(analyse_sync(&c, &frames).unwrap(), analyse_sync(&c, &frames).unwrap());
}

#[test]
fn estimates_sit_on_the_time_axis() {
    // 700 samples: (700 - 200) / 100 = 5 windows.
    let frames = vec![Frame { data: pulse_train(700, 50), channels: 1, sample_rate: 100 }];
    let result = analyse_sync(&conf(), &frames).unwrap();
    assert_eq!(result.len(), 5);
    for (i, bpm) in result.iter().enumerate() {
        assert_eq!(bpm.time_ms, (i as u64) * 1000);
    }
}

#[test]
fn too_short_a_signal_yields_an_empty_result() {
    let frames = vec![Frame { data: pulse_train(199, 50), channels: 1, sample_rate: 100 }];
    let result = analyse_sync(&conf(), &frames).unwrap();
    assert!(result.is_empty());
}

#[test]
fn invalid_configuration_aborts_before_decoding() {
    let mut c = conf();
    c.min_bpm = 0;
    let frames = vec![Frame { data: vec![], channels: 0, sample_rate: 100 }];
    assert_eq!(
        analyse_sync(&c, &frames).unwrap_err(),
        EngineError::Configuration(ConfigurationError::InvalidBpmRange)
    );
}

#[test]
fn zero_channel_frame_aborts_the_run() {
    let frames = vec![Frame { data: vec![1, 2, 3], channels: 0, sample_rate: 100 }];
    assert_eq!(
        analyse_sync(&conf(), &frames).unwrap_err(),
        EngineError::Decode(DecodeError::NoChannels)
    );
}

#[test]
fn degenerate_geometry_aborts_the_run() {
    let frames = vec![Frame { data: vec![0; 400], channels: 1, sample_rate: 0 }];
    assert_eq!(
        analyse_sync(&conf(), &frames).unwrap_err(),
        EngineError::Configuration(ConfigurationError::ZeroWindowSize)
    );
}

#[test]
fn stream_opens_with_start_and_closes_with_end() {
    let frames = vec![Frame { data: pulse_train(400, 50), channels: 1, sample_rate: 100 }];
    let mut sink = VecSink::new();
    analyse(&mut sink, &conf(), &frames).unwrap();
    assert_eq!(sink.events.len(), 4);
    assert_eq!(sink.events[0], State::Start(2));
    assert_eq!(sink.events[3], State::End);
}

#[test]
fn stream_carries_one_step_per_window_in_order() {
    let frames = vec![Frame { data: pulse_train(400, 50), channels: 1, sample_rate: 100 }];
    let c = conf();
    let estimates = analyse_sync(&c, &frames).unwrap();
    let mut sink = VecSink::new();
    analyse(&mut sink, &c, &frames).unwrap();
    let steps: Vec<BPM> = sink
        .events
        .iter()
        .filter_map(|e| match e {
            State::Step(b) => Some(*b),
            _ => None,
        })
        .collect();
    assert_eq!(steps, estimates);
}

#[test]
fn declared_window_count_matches_the_step_count() {
    let frames = vec![Frame { data: pulse_train(700, 50), channels: 1, sample_rate: 100 }];
    let mut sink = VecSink::new();
    analyse(&mut sink, &conf(), &frames).unwrap();
    let declared = match sink.events[0] {
        State::Start(n) => n,
        _ => panic!("stream must open with a start event"),
    };
    let steps = sink
        .events
        .iter()
        .filter(|e| matches!(e, State::Step(_)))
        .count();
    assert_eq!(declared, 5);
    assert_eq!(steps, 5);
}

#[test]
fn failed_run_emits_no_event() {
    let frames = vec![Frame { data: vec![1, 2, 3], channels: 0, sample_rate: 100 }];
    let mut sink = VecSink::new();
    assert!(analyse(&mut sink, &conf(), &frames).is_err());
    assert!(sink.events.is_empty());
}

#[test]
fn empty_run_still_streams_its_protocol() {
    let frames = vec![Frame { data: pulse_train(150, 50), channels: 1, sample_rate: 100 }];
    let mut sink = VecSink::new();
    analyse(&mut sink, &conf(), &frames).unwrap();
    assert_eq!(sink.events, vec![State::Start(0), State::End]);
}

#[test]
fn make_events_wraps_estimates_in_the_protocol() {
    let estimates = vec![
        BPM { time_ms: 0, bpm_milli: 120000 },
        BPM { time_ms: 1000, bpm_milli: 90000 },
    ];
    let events = make_events(&estimates);
    assert_eq!(
        events,
        vec![
            State::Start(2),
            State::Step(BPM { time_ms: 0, bpm_milli: 120000 }),
            State::Step(BPM { time_ms: 1000, bpm_milli: 90000 }),
            State::End,
        ]
    );
}

#[test]
fn engineered_tie_resolves_to_the_smaller_lag_every_run() {
    // rate 100, window_size 50, stride 50, lags 50..100. One pulse in the
    // base window and two equal pulses in the search range, at lags 60 and
    // 80: both lags score equally, and the smaller lag (the higher tempo,
    // 100 BPM rather than 75) must win, run after run.
    let c = Configuration {
        file_path: String::from("track.mp3"),
        time_interval: 500,
        analysis_interval: 500,
        min_bpm: 60,
        max_bpm: 120,
        verbose: 0,
    };
    let mut data: Vec<i16> = vec![0; 200];
    data[0] = 1000;
    data[60] = 1000;
    data[80] = 1000;
    let frames = vec![Frame { data, channels: 1, sample_rate: 100 }];
    let first = analyse_sync(&c, &frames).unwrap();
    assert_eq!(first.len(), 1);
    assert_eq!(first[0].bpm_milli, 100000);
    for _ in 0..10 {
        assert_eq!(analyse_sync(&c, &frames).unwrap(), first);
    }
}
