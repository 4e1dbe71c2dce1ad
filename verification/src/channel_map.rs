//! Ordered, duplicate-tolerant map from channel index to speaker position.

use vstd::prelude::*;

use crate::channel::{mirror_channel, spec_mirror, ChannelPosition};
use crate::error::FilterError;
use crate::MAX_CHANNELS;

verus! {

/// Index of the first occurrence of `p` in `s`, if any.
pub open spec fn spec_find(s: Seq<ChannelPosition>, p: ChannelPosition) -> Option<int>
    decreases s.len(),
{
    if s.len() == 0 {
        None
    } else if s[0] == p {
        Some(0)
    } else {
        match spec_find(s.skip(1), p) {
            None => None,
            Some(i) => Some(i + 1),
        }
    }
}

/// What `spec_find` returns: the found index carries `p` and nothing before
/// it does; a miss means `p` occurs nowhere.
pub proof fn lemma_find_characterization(s: Seq<ChannelPosition>, p: ChannelPosition)
    ensures
        match spec_find(s, p) {
            Some(i) => 0 <= i < s.len() && s[i] == p && forall|j: int| 0 <= j < i ==> s[j] != p,
            None => forall|j: int| 0 <= j < s.len() ==> s[j] != p,
        },
    decreases s.len(),
{
    if s.len() > 0 && s[0] != p {
        lemma_find_characterization(s.skip(1), p);
        match spec_find(s.skip(1), p) {
            Some(i) => {
                assert(s.skip(1)[i] == s[i + 1]);
                assert forall|j: int| 0 <= j < i + 1 implies s[j] != p by {
                    if j > 0 {
                        assert(s.skip(1)[j - 1] == s[j]);
                    }
                }
            },
            None => {
                assert forall|j: int| 0 <= j < s.len() implies s[j] != p by {
                    if j > 0 {
                        assert(s.skip(1)[j - 1] == s[j]);
                    }
                }
            },
        }
    }
}

/// An index that carries `p` with no earlier occurrence is what `spec_find`
/// returns.
pub proof fn lemma_find_of_first(s: Seq<ChannelPosition>, p: ChannelPosition, i: int)
    requires
        0 <= i < s.len(),
        s[i] == p,
        forall|j: int| 0 <= j < i ==> s[j] != p,
    ensures
        spec_find(s, p) == Some(i),
{
    lemma_find_characterization(s, p);
}

/// Ordered set of channel positions, indexed by position in the mapping;
/// built once per filter instance and immutable afterwards.
#[derive(Debug)]
pub struct ChannelMap {
    positions: Vec<ChannelPosition>,
}

impl View for ChannelMap {
    type V = Seq<ChannelPosition>;

    closed spec fn view(&self) -> Seq<ChannelPosition> {
        self.positions@
    }
}

impl ChannelMap {
    /// A map never holds more than `MAX_CHANNELS` entries.
    pub open spec fn wf(&self) -> bool {
        self@.len() <= MAX_CHANNELS
    }

    /// Builds the map from a recording's channel ordering; rejects an
    /// ordering of more than `MAX_CHANNELS` positions.
    pub fn from_iter(positions: Vec<ChannelPosition>) -> (r: Result<ChannelMap, FilterError>)
        ensures
            positions@.len() <= MAX_CHANNELS ==> (r matches Ok(cm) && cm@ == positions@
                && cm.wf()),
            positions@.len() > MAX_CHANNELS ==> r == Err::<ChannelMap, FilterError>(
                FilterError::TooManyChannels { given: positions@.len() as usize },
            ),
    {
        if positions.len() > MAX_CHANNELS {
            Err(FilterError::TooManyChannels { given: positions.len() })
        } else {
            Ok(ChannelMap { positions })
        }
    }

    /// How many channels the map holds.
    pub fn channels(&self) -> (r: usize)
        ensures
            r == self@.len(),
    {
        self.positions.len()
    }

    /// The position mapped at `index`.
    pub fn position_at(&self, index: usize) -> (r: ChannelPosition)
        requires
            index < self@.len(),
        ensures
            r == self@[index as int],
    {
        self.positions[index]
    }

    /// The whole ordering, oldest-registered first.
    pub fn to_positions(&self) -> (r: Vec<ChannelPosition>)
        ensures
            r@ == self@,
    {
        let mut out: Vec<ChannelPosition> = Vec::new();
        let mut i: usize = 0;
        while i < self.positions.len()
            invariant
                i <= self.positions.len(),
                out@ == self.positions@.take(i as int),
            decreases self.positions.len() - i,
        {
            out.push(self.positions[i]);
            i = i + 1;
        }
        assert(out@ == self@);
        out
    }

    /// Index of the first channel mapped to `channel`, scanning in
    /// construction order.
    pub fn find(&self, channel: ChannelPosition) -> (r: Option<usize>)
        ensures
            match r {
                Some(i) => spec_find(self@, channel) == Some(i as int),
                None => spec_find(self@, channel) is None,
            },
    {
        proof {
            lemma_find_characterization(self@, channel);
        }
        let mut i: usize = 0;
        while i < self.positions.len()
            invariant
                i <= self.positions.len(),
                forall|j: int| 0 <= j < i ==> self@[j] != channel,
            decreases self.positions.len() - i,
        {
            if self.positions[i] == channel {
                proof {
                    lemma_find_of_first(self@, channel, i as int);
                }
                return Some(i);
            }
            i = i + 1;
        }
        None
    }

    /// Index of the first channel mapped to the mirror of `channel`.
    pub fn find_mirror(&self, channel: ChannelPosition) -> (r: Option<usize>)
        ensures
            match r {
                Some(i) => spec_find(self@, spec_mirror(channel)) == Some(i as int),
                None => spec_find(self@, spec_mirror(channel)) is None,
            },
    {
        self.find(mirror_channel(channel))
    }
}

/// Mirror lookups round-trip across a symmetric pair: where `i` is the first
/// occurrence of its own position and `j` the first occurrence of that
/// position's mirror, the mirror lookup from `j` leads back to `i`.
pub proof fn lemma_mirror_pair_round_trip(s: Seq<ChannelPosition>, i: int, j: int)
    requires
        0 <= i < s.len(),
        spec_find(s, s[i]) == Some(i),
        spec_find(s, spec_mirror(s[i])) == Some(j),
    ensures
        0 <= j < s.len(),
        s[j] == spec_mirror(s[i]),
        spec_find(s, spec_mirror(s[j])) == Some(i),
{
    lemma_find_characterization(s, spec_mirror(s[i]));
    crate::channel::lemma_mirror_involution(s[i]);
}

} // verus!
