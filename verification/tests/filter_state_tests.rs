use virtual_surround::channel::ChannelPosition;
use virtual_surround::error::FilterError;
use virtual_surround::filter::{extract_channel, ir_slot, FilterState};
use virtual_surround::format::{SampleEncoding, SampleFormat};

fn stereo_state() -> FilterState {
    FilterState::new(
        vec![ChannelPosition::FrontLeft, ChannelPosition::FrontRight],
        8,
        48000,
        SampleEncoding::IeeeFloat,
        32,
    )
    .unwrap()
}

#[test]
fn synthetic_stereo_hrir_latency_figures() {
    // An 8-sample HRIR with a 512-sample block needs 1024 samples of window
    // (next power of two at or above 521) and forces 512 samples of latency.
    let st = stereo_state();
    assert_eq!(st.samples_required(), 1024);
    assert_eq!(st.block_size(), 512);
    assert_eq!(st.sample_latency(), 512);
    assert_eq!(st.sample_rate(), 48000);
    assert_eq!(st.channels(), 2);
    assert_eq!(st.format(), SampleFormat::F32);
    assert_eq!(
        st.positions(),
        vec![ChannelPosition::FrontLeft, ChannelPosition::FrontRight]
    );
}

#[test]
fn right_ear_reads_the_mirror_channel() {
    let st = FilterState::new(
        vec![
            ChannelPosition::FrontLeft,
            ChannelPosition::FrontRight,
            ChannelPosition::FrontCenter,
        ],
        8,
        44100,
        SampleEncoding::IeeeFloat,
        32,
    )
    .unwrap();
    assert_eq!(st.right_ear_channel(0), 1);
    assert_eq!(st.right_ear_channel(1), 0);
    // A center channel is its own mirror.
    assert_eq!(st.right_ear_channel(2), 2);
}

#[test]
fn seven_one_layout_pairs_every_ear() {
    let st = FilterState::new(
        vec![
            ChannelPosition::FrontLeft,
            ChannelPosition::FrontRight,
            ChannelPosition::FrontCenter,
            ChannelPosition::LowFrequency,
            ChannelPosition::BackLeft,
            ChannelPosition::BackRight,
            ChannelPosition::SideLeft,
            ChannelPosition::SideRight,
        ],
        128,
        48000,
        SampleEncoding::IeeeFloat,
        32,
    )
    .unwrap();
    assert_eq!(st.channels(), 8);
    // 128 + 512 + 1 = 641, next power of two is 1024.
    assert_eq!(st.samples_required(), 1024);
    let expected_mirrors = [1, 0, 2, 3, 5, 4, 7, 6];
    for (c, m) in expected_mirrors.iter().enumerate() {
        assert_eq!(st.right_ear_channel(c), *m);
    }
}

#[test]
fn construction_rejects_unsupported_encoding_first() {
    let r = FilterState::new(
        vec![ChannelPosition::FrontLeft],
        8,
        48000,
        SampleEncoding::IntegerPcm,
        24,
    );
    assert_eq!(
        r.err().unwrap(),
        FilterError::UnsupportedSampleFormat {
            encoding: SampleEncoding::IntegerPcm,
            bits: 24
        }
    );
}

#[test]
fn construction_rejects_oversized_layouts() {
    let r = FilterState::new(
        vec![ChannelPosition::FrontCenter; 25],
        8,
        48000,
        SampleEncoding::IeeeFloat,
        32,
    );
    assert_eq!(r.err().unwrap(), FilterError::TooManyChannels { given: 25 });
}

#[test]
fn construction_rejects_asymmetric_recordings() {
    // FrontLeft's mirror (FrontRight) has no channel of its own.
    let r = FilterState::new(
        vec![ChannelPosition::FrontLeft, ChannelPosition::FrontCenter],
        8,
        48000,
        SampleEncoding::IeeeFloat,
        32,
    );
    assert_eq!(
        r.err().unwrap(),
        FilterError::AsymmetricHrir {
            position: ChannelPosition::FrontLeft
        }
    );
}

#[test]
fn ear_slots_sit_side_by_side() {
    assert_eq!(ir_slot(0, 0), 0);
    assert_eq!(ir_slot(0, 1), 1);
    assert_eq!(ir_slot(3, 0), 6);
    assert_eq!(ir_slot(3, 1), 7);
}

#[test]
fn extract_channel_deinterleaves_and_keeps_padding() {
    let data: Vec<f32> = vec![1.0, 2.0, 3.0, 4.0, 5.0, 6.0];
    let mut out: Vec<f32> = vec![0.0; 5];
    extract_channel(&data, 3, 2, 1, &mut out);
    assert_eq!(out, vec![2.0, 4.0, 6.0, 0.0, 0.0]);
    let mut out0: Vec<f32> = vec![9.0; 4];
    extract_channel(&data, 3, 2, 0, &mut out0);
    assert_eq!(out0, vec![1.0, 3.0, 5.0, 9.0]);
}
