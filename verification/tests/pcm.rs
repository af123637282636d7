use music_speed::pcm::{get_mono, get_music};
use music_speed::{DecodeError, EngineError, Frame};

#[test]
fn mono_signal_is_widened_unchanged() {
    let data: Vec<i16> = vec![0, 1, -1, 32767, -32768];
    let mono = get_mono(&data, 1);
    assert_eq!(mono, vec![0, 1, -1, 32767, -32768]);
}

#[test]
fn identical_stereo_channels_downmix_to_the_mono_signal() {
    let mono_src: Vec<i16> = vec![5, -7, 32767, -32768, 0, 12345];
    let mut stereo: Vec<i16> = Vec::new();
    for s in &mono_src {
        stereo.push(*s);
        stereo.push(*s);
    }
    assert_eq!(get_mono(&stereo, 2), get_mono(&mono_src, 1));
}

#[test]
fn stereo_downmix_averages_each_frame() {
    let stereo: Vec<i16> = vec![10, 20, -10, -20, 7, 8];
    assert_eq!(get_mono(&stereo, 2), vec![15, -15, 7]);
}

#[test]
fn negative_odd_sums_round_toward_negative_infinity() {
    let stereo: Vec<i16> = vec![-3, -4, 3, 4];
    assert_eq!(get_mono(&stereo, 2), vec![-4, 3]);
}

#[test]
fn trailing_incomplete_group_is_dropped() {
    let data: Vec<i16> = vec![10, 20, 30];
    assert_eq!(get_mono(&data, 2), vec![15]);
}

#[test]
fn three_channels_average() {
    let data: Vec<i16> = vec![1, 2, 6, -1, -2, -6];
    assert_eq!(get_mono(&data, 3), vec![3, -3]);
}

#[test]
fn frames_concatenate_in_order_and_keep_the_last_rate() {
    let frames = vec![
        Frame { data: vec![1, 1, 2, 2], channels: 2, sample_rate: 22050 },
        Frame { data: vec![3, 4], channels: 1, sample_rate: 44100 },
    ];
    let buf = get_music(&frames).unwrap();
    assert_eq!(buf.samples, vec![1, 2, 3, 4]);
    assert_eq!(buf.sample_rate, 44100);
}

#[test]
fn empty_stream_yields_an_empty_buffer() {
    let frames: Vec<Frame> = Vec::new();
    let buf = get_music(&frames).unwrap();
    assert!(buf.samples.is_empty());
    assert_eq!(buf.sample_rate, 0);
}

#[test]
fn zero_channel_frame_is_a_decode_error() {
    let frames = vec![
        Frame { data: vec![1, 2], channels: 1, sample_rate: 44100 },
        Frame { data: vec![], channels: 0, sample_rate: 44100 },
    ];
    match get_music(&frames) {
        Err(e) => assert_eq!(e, EngineError::Decode(DecodeError::NoChannels)),
        Ok(_) => panic!("expected a decode error"),
    }
}
