use virtual_surround::channel::{get_channel_name, mirror_channel, ChannelPosition};

fn all_positions() -> Vec<ChannelPosition> {
    vec![
        ChannelPosition::DirectOut,
        ChannelPosition::FrontLeft,
        ChannelPosition::FrontRight,
        ChannelPosition::FrontCenter,
        ChannelPosition::LowFrequency,
        ChannelPosition::BackLeft,
        ChannelPosition::BackRight,
        ChannelPosition::FrontCenterLeft,
        ChannelPosition::FrontCenterRight,
        ChannelPosition::BackCenter,
        ChannelPosition::SideLeft,
        ChannelPosition::SideRight,
        ChannelPosition::TopCenter,
        ChannelPosition::TopFrontLeft,
        ChannelPosition::TopFrontCenter,
        ChannelPosition::TopFrontRight,
        ChannelPosition::TopBackLeft,
        ChannelPosition::TopBackCenter,
        ChannelPosition::TopBackRight,
    ]
}

#[test]
fn mirror_swaps_symmetric_pairs() {
    assert_eq!(
        mirror_channel(ChannelPosition::FrontLeft),
        ChannelPosition::FrontRight
    );
    assert_eq!(
        mirror_channel(ChannelPosition::FrontRight),
        ChannelPosition::FrontLeft
    );
    assert_eq!(
        mirror_channel(ChannelPosition::BackLeft),
        ChannelPosition::BackRight
    );
    assert_eq!(
        mirror_channel(ChannelPosition::SideRight),
        ChannelPosition::SideLeft
    );
    assert_eq!(
        mirror_channel(ChannelPosition::TopBackLeft),
        ChannelPosition::TopBackRight
    );
}

#[test]
fn mirror_is_involution_on_every_position() {
    for p in all_positions() {
        assert_eq!(mirror_channel(mirror_channel(p)), p);
    }
}

#[test]
fn mirror_fixes_center_positions() {
    let centers = vec![
        ChannelPosition::DirectOut,
        ChannelPosition::FrontCenter,
        ChannelPosition::LowFrequency,
        ChannelPosition::BackCenter,
        ChannelPosition::TopCenter,
        ChannelPosition::TopFrontCenter,
        ChannelPosition::TopBackCenter,
    ];
    for p in centers {
        assert_eq!(mirror_channel(p), p);
    }
}

#[test]
fn channel_names_match_port_labels() {
    assert_eq!(get_channel_name(ChannelPosition::FrontLeft), "FL");
    assert_eq!(get_channel_name(ChannelPosition::FrontRight), "FR");
    assert_eq!(get_channel_name(ChannelPosition::LowFrequency), "LFE");
    assert_eq!(get_channel_name(ChannelPosition::BackLeft), "RL");
    assert_eq!(get_channel_name(ChannelPosition::TopBackRight), "RTR");
    assert_eq!(get_channel_name(ChannelPosition::DirectOut), "NA");
}

#[test]
fn channel_names_of_mapped_positions_are_distinct() {
    let names: Vec<&str> = all_positions()
        .into_iter()
        .map(get_channel_name)
        .collect();
    for (i, a) in names.iter().enumerate() {
        for b in names.iter().skip(i + 1) {
            assert_ne!(a, b);
        }
    }
}
