//! Named speaker positions and their left/right mirror table.

use vstd::prelude::*;

verus! {

/// One named physical speaker position of a surround layout.
#[derive(Clone, Copy, Debug, PartialEq, Eq, Structural)]
pub enum ChannelPosition {
    DirectOut,
    FrontLeft,
    FrontRight,
    FrontCenter,
    LowFrequency,
    BackLeft,
    BackRight,
    FrontCenterLeft,
    FrontCenterRight,
    BackCenter,
    SideLeft,
    SideRight,
    TopCenter,
    TopFrontLeft,
    TopFrontCenter,
    TopFrontRight,
    TopBackLeft,
    TopBackCenter,
    TopBackRight,
}

/// The left/right reflection of a position: members of a symmetric pair map
/// to each other, center-line positions map to themselves.
pub open spec fn spec_mirror(p: ChannelPosition) -> ChannelPosition {
    match p {
        ChannelPosition::FrontLeft => ChannelPosition::FrontRight,
        ChannelPosition::FrontRight => ChannelPosition::FrontLeft,
        ChannelPosition::BackLeft => ChannelPosition::BackRight,
        ChannelPosition::BackRight => ChannelPosition::BackLeft,
        ChannelPosition::FrontCenterLeft => ChannelPosition::FrontCenterRight,
        ChannelPosition::FrontCenterRight => ChannelPosition::FrontCenterLeft,
        ChannelPosition::SideLeft => ChannelPosition::SideRight,
        ChannelPosition::SideRight => ChannelPosition::SideLeft,
        ChannelPosition::TopFrontLeft => ChannelPosition::TopFrontRight,
        ChannelPosition::TopFrontRight => ChannelPosition::TopFrontLeft,
        ChannelPosition::TopBackLeft => ChannelPosition::TopBackRight,
        ChannelPosition::TopBackRight => ChannelPosition::TopBackLeft,
        center => center,
    }
}

/// A position on the center line: one that belongs to no symmetric pair.
pub open spec fn spec_is_center(p: ChannelPosition) -> bool {
    match p {
        ChannelPosition::DirectOut => true,
        ChannelPosition::FrontCenter => true,
        ChannelPosition::LowFrequency => true,
        ChannelPosition::BackCenter => true,
        ChannelPosition::TopCenter => true,
        ChannelPosition::TopFrontCenter => true,
        ChannelPosition::TopBackCenter => true,
        _ => false,
    }
}

/// The mirror table is an involution, and fixes exactly the center-line
/// positions: applying it twice returns to the starting position, and a
/// position equals its own mirror precisely when it lies on the center line.
pub proof fn lemma_mirror_involution(p: ChannelPosition)
    ensures
        spec_mirror(spec_mirror(p)) == p,
        spec_is_center(p) <==> spec_mirror(p) == p,
{
}

/// Returns the left/right reflection of `channel`.
pub fn mirror_channel(channel: ChannelPosition) -> (r: ChannelPosition)
    ensures
        r == spec_mirror(channel),
{
    match channel {
        ChannelPosition::FrontLeft => ChannelPosition::FrontRight,
        ChannelPosition::FrontRight => ChannelPosition::FrontLeft,
        ChannelPosition::BackLeft => ChannelPosition::BackRight,
        ChannelPosition::BackRight => ChannelPosition::BackLeft,
        ChannelPosition::FrontCenterLeft => ChannelPosition::FrontCenterRight,
        ChannelPosition::FrontCenterRight => ChannelPosition::FrontCenterLeft,
        ChannelPosition::SideLeft => ChannelPosition::SideRight,
        ChannelPosition::SideRight => ChannelPosition::SideLeft,
        ChannelPosition::TopFrontLeft => ChannelPosition::TopFrontRight,
        ChannelPosition::TopFrontRight => ChannelPosition::TopFrontLeft,
        ChannelPosition::TopBackLeft => ChannelPosition::TopBackRight,
        ChannelPosition::TopBackRight => ChannelPosition::TopBackLeft,
        center => center,
    }
}

/// The short port label of each position.
pub open spec fn spec_channel_name(mask: ChannelPosition) -> Seq<char> {
    match mask {
        ChannelPosition::DirectOut => "NA"@,
        ChannelPosition::FrontLeft => "FL"@,
        ChannelPosition::FrontRight => "FR"@,
        ChannelPosition::FrontCenter => "FC"@,
        ChannelPosition::LowFrequency => "LFE"@,
        ChannelPosition::BackLeft => "RL"@,
        ChannelPosition::BackRight => "RR"@,
        ChannelPosition::FrontCenterLeft => "FLC"@,
        ChannelPosition::FrontCenterRight => "FRC"@,
        ChannelPosition::BackCenter => "RC"@,
        ChannelPosition::SideLeft => "SL"@,
        ChannelPosition::SideRight => "SR"@,
        ChannelPosition::TopCenter => "TC"@,
        ChannelPosition::TopFrontLeft => "TFL"@,
        ChannelPosition::TopFrontCenter => "TFC"@,
        ChannelPosition::TopFrontRight => "TFR"@,
        ChannelPosition::TopBackLeft => "TRL"@,
        ChannelPosition::TopBackCenter => "TRC"@,
        ChannelPosition::TopBackRight => "RTR"@,
    }
}

/// Returns the short label under which a port for `mask` is registered.
pub fn get_channel_name(mask: ChannelPosition) -> (r: &'static str)
    ensures
        r@ == spec_channel_name(mask),
{
    match mask {
        ChannelPosition::DirectOut => "NA",
        ChannelPosition::FrontLeft => "FL",
        ChannelPosition::FrontRight => "FR",
        ChannelPosition::FrontCenter => "FC",
        ChannelPosition::LowFrequency => "LFE",
        ChannelPosition::BackLeft => "RL",
        ChannelPosition::BackRight => "RR",
        ChannelPosition::FrontCenterLeft => "FLC",
        ChannelPosition::FrontCenterRight => "FRC",
        ChannelPosition::BackCenter => "RC",
        ChannelPosition::SideLeft => "SL",
        ChannelPosition::SideRight => "SR",
        ChannelPosition::TopCenter => "TC",
        ChannelPosition::TopFrontLeft => "TFL",
        ChannelPosition::TopFrontCenter => "TFC",
        ChannelPosition::TopFrontRight => "TFR",
        ChannelPosition::TopBackLeft => "TRL",
        ChannelPosition::TopBackCenter => "TRC",
        ChannelPosition::TopBackRight => "RTR",
    }
}

} // verus!
