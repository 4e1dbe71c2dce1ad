use virtual_surround::channel::ChannelPosition;
use virtual_surround::channel_map::ChannelMap;
use virtual_surround::error::FilterError;
use virtual_surround::format::{SampleEncoding, SampleFormat};
use virtual_surround::planning::{plan_fft_len, plan_resampling};

#[test]
fn map_finds_first_occurrence_in_construction_order() {
    let map = ChannelMap::from_iter(vec![
        ChannelPosition::FrontLeft,
        ChannelPosition::FrontRight,
        ChannelPosition::FrontCenter,
        ChannelPosition::FrontRight,
    ])
    .unwrap();
    assert_eq!(map.find(ChannelPosition::FrontLeft), Some(0));
    assert_eq!(map.find(ChannelPosition::FrontRight), Some(1));
    assert_eq!(map.find(ChannelPosition::FrontCenter), Some(2));
    assert_eq!(map.find(ChannelPosition::SideLeft), None);
    assert_eq!(map.channels(), 4);
}

#[test]
fn map_mirror_lookup_round_trips_symmetric_pairs() {
    let map = ChannelMap::from_iter(vec![
        ChannelPosition::FrontLeft,
        ChannelPosition::FrontRight,
        ChannelPosition::FrontCenter,
    ])
    .unwrap();
    // FrontLeft's mirror lookup lands on FrontRight, and back again.
    let j = map.find_mirror(ChannelPosition::FrontLeft).unwrap();
    assert_eq!(j, 1);
    assert_eq!(map.position_at(j), ChannelPosition::FrontRight);
    assert_eq!(map.find_mirror(map.position_at(j)), Some(0));
    // A center position mirrors to itself.
    assert_eq!(map.find_mirror(ChannelPosition::FrontCenter), Some(2));
}

#[test]
fn map_rejects_more_than_max_channels() {
    let positions = vec![ChannelPosition::FrontCenter; 25];
    match ChannelMap::from_iter(positions) {
        Err(FilterError::TooManyChannels { given }) => assert_eq!(given, 25),
        other => panic!("expected TooManyChannels, got {:?}", other),
    }
    assert!(ChannelMap::from_iter(vec![ChannelPosition::FrontCenter; 24]).is_ok());
}

#[test]
fn fft_len_is_least_power_of_two_with_guard() {
    // 8 + 512 + 1 = 521, next power of two is 1024.
    assert_eq!(plan_fft_len(8), 1024);
    // 0 + 512 + 1 = 513 still needs 1024.
    assert_eq!(plan_fft_len(0), 1024);
    // 511 + 512 + 1 = 1024 exactly.
    assert_eq!(plan_fft_len(511), 1024);
    // 512 + 512 + 1 = 1025 rolls over to 2048.
    assert_eq!(plan_fft_len(512), 2048);
    assert_eq!(plan_fft_len(10000), 16384);
}

#[test]
fn sample_format_accepts_only_f32() {
    assert_eq!(
        SampleFormat::try_from(SampleEncoding::IeeeFloat, 32),
        Ok(SampleFormat::F32)
    );
    assert_eq!(
        SampleFormat::try_from(SampleEncoding::IeeeFloat, 64),
        Err(FilterError::UnsupportedSampleFormat {
            encoding: SampleEncoding::IeeeFloat,
            bits: 64
        })
    );
    assert_eq!(
        SampleFormat::try_from(SampleEncoding::IntegerPcm, 16),
        Err(FilterError::UnsupportedSampleFormat {
            encoding: SampleEncoding::IntegerPcm,
            bits: 16
        })
    );
}

#[test]
fn resampling_outcome_follows_the_request() {
    assert_eq!(plan_resampling(44100, None, false), Ok(44100));
    assert_eq!(plan_resampling(44100, None, true), Ok(44100));
    assert_eq!(plan_resampling(44100, Some(48000), true), Ok(48000));
    assert_eq!(
        plan_resampling(44100, Some(48000), false),
        Err(FilterError::ResamplingUnavailable)
    );
    // A target equal to the source still demands a resampler to be present.
    assert_eq!(
        plan_resampling(48000, Some(48000), false),
        Err(FilterError::ResamplingUnavailable)
    );
}

#[test]
fn error_descriptions_name_each_failure() {
    assert_eq!(
        FilterError::ResamplingUnavailable.describe(),
        "resampling unavailable"
    );
    assert_eq!(
        FilterError::TooManyChannels { given: 30 }.describe(),
        "too many channels"
    );
    assert_eq!(
        FilterError::AsymmetricHrir {
            position: ChannelPosition::FrontLeft
        }
        .describe(),
        "asymmetric hrir recording"
    );
    assert_eq!(
        FilterError::TransformBackendFailure.describe(),
        "transform backend failure"
    );
    assert_eq!(
        FilterError::UnsupportedSampleFormat {
            encoding: SampleEncoding::Other,
            bits: 8
        }
        .describe(),
        "unsupported sample format"
    );
}
