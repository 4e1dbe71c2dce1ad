//! Construction and fixed state of one filter instance.
//!
//! A [`FilterState`] is built once from a decoded impulse recording's shape —
//! its channel ordering, length, rate and encoding — and is immutable
//! afterwards. It owns the channel map, the planned transform length, and
//! the per-channel resolution of each ear's impulse source: the left ear
//! hears a channel's own recording, the right ear hears the recording of the
//! channel's mirror position.

use vstd::prelude::*;

use crate::channel::{spec_mirror, ChannelPosition};
use crate::channel_map::{lemma_find_characterization, spec_find, ChannelMap};
use crate::error::FilterError;
use crate::format::{SampleEncoding, SampleFormat};
use crate::planning::{plan_fft_len, spec_is_pow2};
use crate::{BLOCK_SIZE, MAX_CHANNELS};

verus! {

/// Every mapped position has a mirror channel somewhere in the recording.
pub open spec fn spec_symmetric(s: Seq<ChannelPosition>) -> bool {
    forall|c: int| 0 <= c < s.len() ==> (#[trigger] spec_find(s, spec_mirror(s[c]))) is Some
}

/// The fixed state of one filter instance: channel map, sample rate, sample
/// format, transform length, and each channel's right-ear impulse source.
pub struct FilterState {
    channel_map: ChannelMap,
    rate: usize,
    format: SampleFormat,
    fft_len: usize,
    right_ear: Vec<usize>,
}

impl FilterState {
    /// The recording's channel ordering.
    pub closed spec fn spec_positions(&self) -> Seq<ChannelPosition> {
        self.channel_map@
    }

    /// The rate the filter runs at.
    pub closed spec fn spec_rate(&self) -> int {
        self.rate as int
    }

    /// The accepted sample format of the recording.
    pub closed spec fn spec_format(&self) -> SampleFormat {
        self.format
    }

    /// The planned transform length; one full convolution frame.
    pub closed spec fn spec_fft_len(&self) -> int {
        self.fft_len as int
    }

    /// Which channel's recording feeds the right ear of channel `c`: the
    /// first channel mapped to the mirror of `c`'s position.
    pub closed spec fn spec_mirror_index(&self, c: int) -> int {
        self.right_ear@[c] as int
    }

    /// Invariants established at construction: the map is bounded, the
    /// transform length is a power of two long enough for one block, and
    /// every channel's right-ear source is the first occurrence of its
    /// mirror position.
    pub closed spec fn wf(&self) -> bool {
        &&& self.channel_map.wf()
        &&& spec_is_pow2(self.fft_len as nat)
        &&& BLOCK_SIZE < self.fft_len
        &&& self.fft_len as int <= usize::MAX as int / (2 * MAX_CHANNELS as int)
        &&& self.right_ear@.len() == self.channel_map@.len()
        &&& forall|c: int|
            0 <= c < self.channel_map@.len() ==> Some(#[trigger] self.right_ear@[c] as int)
                == spec_find(self.channel_map@, spec_mirror(self.channel_map@[c]))
    }

    /// What every well-formed state guarantees of its spec-level shape.
    pub proof fn lemma_wf(&self)
        requires
            self.wf(),
        ensures
            self.spec_positions().len() <= MAX_CHANNELS,
            spec_is_pow2(self.spec_fft_len() as nat),
            BLOCK_SIZE < self.spec_fft_len(),
            self.spec_fft_len() <= usize::MAX as int / (2 * MAX_CHANNELS as int),
            spec_symmetric(self.spec_positions()),
            forall|c: int|
                0 <= c < self.spec_positions().len() ==> Some(#[trigger] self.spec_mirror_index(c))
                    == spec_find(self.spec_positions(), spec_mirror(self.spec_positions()[c])),
            forall|c: int|
                0 <= c < self.spec_positions().len() ==> 0 <= #[trigger] self.spec_mirror_index(c)
                    < self.spec_positions().len(),
            forall|c: int|
                0 <= c < self.spec_positions().len() ==> self.spec_positions()[
                    #[trigger] self.spec_mirror_index(c)] == spec_mirror(self.spec_positions()[c]),
    {
        assert forall|c: int| 0 <= c < self.spec_positions().len() implies 0 <= (
        #[trigger] self.spec_mirror_index(c)) < self.spec_positions().len()
            && self.spec_positions()[self.spec_mirror_index(c)] == spec_mirror(
            self.spec_positions()[c],
        ) by {
            assert(Some(self.right_ear@[c] as int) == spec_find(
                self.channel_map@,
                spec_mirror(self.channel_map@[c]),
            ));
            lemma_find_characterization(self.spec_positions(), spec_mirror(self.spec_positions()[c]));
        }
        assert forall|c: int| 0 <= c < self.spec_positions().len() implies (#[trigger] spec_find(
            self.spec_positions(),
            spec_mirror(self.spec_positions()[c]),
        )) is Some by {
            assert(Some(self.right_ear@[c] as int) == spec_find(
                self.channel_map@,
                spec_mirror(self.channel_map@[c]),
            ));
        }
    }

    /// Builds the fixed state of one filter from the shape of a decoded
    /// impulse recording. Rejects, in this order: an encoding other than
    /// 32-bit IEEE float, an ordering of more than `MAX_CHANNELS` channels,
    /// and a mapped position whose mirror has no channel of its own.
    pub fn new(
        positions: Vec<ChannelPosition>,
        hrir_samples: usize,
        rate: usize,
        encoding: SampleEncoding,
        bits: u16,
    ) -> (r: Result<FilterState, FilterError>)
        requires
            hrir_samples <= usize::MAX / 128,
        ensures
            !(encoding == SampleEncoding::IeeeFloat && bits == 32) ==> r == Err::<
                FilterState,
                FilterError,
            >(FilterError::UnsupportedSampleFormat { encoding, bits }),
            encoding == SampleEncoding::IeeeFloat && bits == 32 && positions@.len() > MAX_CHANNELS
                ==> r == Err::<FilterState, FilterError>(
                FilterError::TooManyChannels { given: positions@.len() as usize },
            ),
            encoding == SampleEncoding::IeeeFloat && bits == 32 && positions@.len() <= MAX_CHANNELS
                && !spec_symmetric(positions@) ==> (r matches Err(e) && (e matches
            FilterError::AsymmetricHrir { position } && exists|c: int|
                0 <= c < positions@.len() && position == positions@[c] && (
                #[trigger] spec_find(positions@, spec_mirror(positions@[c]))) is None)),
            encoding == SampleEncoding::IeeeFloat && bits == 32 && positions@.len() <= MAX_CHANNELS
                && spec_symmetric(positions@) ==> (r matches Ok(st) && st.wf()
                && st.spec_positions() == positions@ && st.spec_rate() == rate && st.spec_format()
                == SampleFormat::F32 && hrir_samples + BLOCK_SIZE + 1 <= st.spec_fft_len()
                && st.spec_fft_len() < 2 * (hrir_samples + BLOCK_SIZE + 1)),
    {
        let format: SampleFormat = match SampleFormat::try_from(encoding, bits) {
            Ok(f) => f,
            Err(e) => {
                return Err(e);
            },
        };
        let channel_map: ChannelMap = match ChannelMap::from_iter(positions) {
            Ok(m) => m,
            Err(e) => {
                return Err(e);
            },
        };
        let fft_len: usize = plan_fft_len(hrir_samples);
        let right_ear: Vec<usize> = match resolve_right_ears(&channel_map) {
            Ok(v) => v,
            Err(e) => {
                return Err(e);
            },
        };
        let st = FilterState { channel_map, rate, format, fft_len, right_ear };
        proof {
            assert(st.wf());
        }
        Ok(st)
    }

    /// Samples of history each transform consumes: the transform length.
    pub fn samples_required(&self) -> (r: usize)
        ensures
            r == self.spec_fft_len(),
    {
        self.fft_len
    }

    /// Valid output samples produced per transform.
    pub fn block_size(&self) -> (r: usize)
        ensures
            r == BLOCK_SIZE,
    {
        BLOCK_SIZE
    }

    /// Input samples that must accumulate before the first valid output
    /// frame.
    pub fn sample_latency(&self) -> (r: usize)
        requires
            self.wf(),
        ensures
            r == self.spec_fft_len() - BLOCK_SIZE,
    {
        self.fft_len - BLOCK_SIZE
    }

    /// The rate the filter runs at.
    pub fn sample_rate(&self) -> (r: usize)
        ensures
            r == self.spec_rate(),
    {
        self.rate
    }

    /// How many channels the filter renders.
    pub fn channels(&self) -> (r: usize)
        ensures
            r == self.spec_positions().len(),
    {
        self.channel_map.channels()
    }

    /// The ordered channel layout, as registered at construction.
    pub fn positions(&self) -> (r: Vec<ChannelPosition>)
        ensures
            r@ == self.spec_positions(),
    {
        self.channel_map.to_positions()
    }

    /// The accepted sample format of the recording.
    pub fn format(&self) -> (r: SampleFormat)
        ensures
            r == self.spec_format(),
    {
        self.format
    }

    /// The position mapped at `c`.
    pub fn position_at(&self, c: usize) -> (r: ChannelPosition)
        requires
            c < self.spec_positions().len(),
        ensures
            r == self.spec_positions()[c as int],
    {
        self.channel_map.position_at(c)
    }

    /// Which channel's recording feeds the right ear of channel `c`.
    pub fn right_ear_channel(&self, c: usize) -> (r: usize)
        requires
            self.wf(),
            c < self.spec_positions().len(),
        ensures
            r == self.spec_mirror_index(c as int),
            r < self.spec_positions().len(),
            self.spec_positions()[r as int] == spec_mirror(self.spec_positions()[c as int]),
    {
        proof {
            self.lemma_wf();
            assert(0 <= self.spec_mirror_index(c as int) < self.spec_positions().len());
            assert(self.spec_positions()[self.spec_mirror_index(c as int)] == spec_mirror(
                self.spec_positions()[c as int],
            ));
        }
        self.right_ear[c]
    }
}

/// Resolves, for every mapped channel, which channel's recording feeds its
/// right ear: the first channel mapped to its mirror position. Fails on the
/// first channel whose mirror position has no channel in the map.
fn resolve_right_ears(map: &ChannelMap) -> (r: Result<Vec<usize>, FilterError>)
    ensures
        spec_symmetric(map@) ==> (r matches Ok(v) && v@.len() == map@.len() && forall|d: int|
            0 <= d < map@.len() ==> Some(#[trigger] v@[d] as int) == spec_find(
                map@,
                spec_mirror(map@[d]),
            )),
        !spec_symmetric(map@) ==> (r matches Err(e) && (e matches FilterError::AsymmetricHrir {
            position,
        } && exists|c: int|
            0 <= c < map@.len() && position == map@[c] && (#[trigger] spec_find(
                map@,
                spec_mirror(map@[c]),
            )) is None)),
{
    let n: usize = map.channels();
    let mut right_ear: Vec<usize> = Vec::new();
    let mut c: usize = 0;
    while c < n
        invariant
            n == map@.len(),
            c <= n,
            right_ear@.len() == c,
            forall|d: int|
                0 <= d < c ==> Some(#[trigger] right_ear@[d] as int) == spec_find(
                    map@,
                    spec_mirror(map@[d]),
                ),
        decreases n - c,
    {
        let p: ChannelPosition = map.position_at(c);
        match map.find_mirror(p) {
            Some(j) => {
                right_ear.push(j);
            },
            None => {
                proof {
                    assert(spec_find(map@, spec_mirror(map@[c as int])) is None);
                    assert(!spec_symmetric(map@));
                }
                return Err(FilterError::AsymmetricHrir { position: p });
            },
        }
        c = c + 1;
    }
    proof {
        assert forall|d: int| 0 <= d < map@.len() implies (#[trigger] spec_find(
            map@,
            spec_mirror(map@[d]),
        )) is Some by {
            assert(Some(right_ear@[d] as int) == spec_find(map@, spec_mirror(map@[d])));
        }
    }
    Ok(right_ear)
}

/// The impulse-store slot of one `(channel, ear)` pair: the two ears of each
/// channel sit side by side, left ear first.
pub fn ir_slot(channel: usize, ear: usize) -> (r: usize)
    requires
        channel < MAX_CHANNELS,
        ear < 2,
    ensures
        r == 2 * channel + ear,
{
    2 * channel + ear
}

/// Copies the samples of one channel out of an interleaved recording into
/// the front of a preallocated buffer, leaving the buffer's tail — the zero
/// padding of the impulse — untouched.
pub fn extract_channel<T: Copy>(
    data: &Vec<T>,
    frames: usize,
    channels: usize,
    channel: usize,
    out: &mut Vec<T>,
)
    requires
        1 <= channels,
        channel < channels,
        frames * channels <= data@.len(),
        frames <= old(out)@.len(),
    ensures
        final(out)@.len() == old(out)@.len(),
        forall|j: int|
            0 <= j < frames ==> #[trigger] final(out)@[j] == data@[j * channels + channel],
        forall|j: int|
            frames <= j < old(out)@.len() ==> #[trigger] final(out)@[j] == old(out)@[j],
{
    proof {
        assert(data.len() == data@.len());
        assert(out.len() == out@.len());
    }
    let mut j: usize = 0;
    while j < frames
        invariant
            data@.len() <= usize::MAX,
            1 <= channels,
            channel < channels,
            frames * channels as int <= data@.len(),
            frames <= old(out)@.len(),
            j <= frames,
            out@.len() == old(out)@.len(),
            forall|t: int| 0 <= t < j ==> #[trigger] out@[t] == data@[t * channels + channel],
            forall|t: int| j <= t < old(out)@.len() ==> #[trigger] out@[t] == old(out)@[t],
        decreases frames - j,
    {
        proof {
            assert(0 <= j * channels && j * channels + channel < frames * channels)
                by (nonlinear_arith)
                requires
                    0 <= j < frames,
                    0 <= channel < channels,
            ;
        }
        let idx: usize = j * channels + channel;
        let v: T = data[idx];
        out.set(j, v);
        j = j + 1;
    }
}

} // verus!
