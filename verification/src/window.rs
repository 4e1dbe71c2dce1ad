//! Sliding per-channel history buffers for the streaming filter.
//!
//! A [`SlidingWindow`] turns an interleaved sample stream of arbitrary chunk
//! sizes into fixed-length convolution frames: incoming samples are
//! de-interleaved and appended per channel, the oldest samples are discarded
//! when a chunk would overflow the fixed capacity, and once every window is
//! full the caller may read the frames out and slide forward by one block.

use vstd::pervasive::VecAdditionalExecFns;
use vstd::prelude::*;

use crate::MAX_CHANNELS;

verus! {

/// The samples of channel `c` in an interleaved buffer, whole frames only.
pub open spec fn channel_samples<T>(input: Seq<T>, channels: int, c: int) -> Seq<T> {
    Seq::new((input.len() as int / channels) as nat, |s: int| input[s * channels + c])
}

/// One channel's window after `incoming` arrives: append, then discard the
/// oldest samples that no longer fit in `cap`.
pub open spec fn spec_slide<T>(w: Seq<T>, incoming: Seq<T>, cap: int) -> Seq<T> {
    let t = w + incoming;
    if t.len() <= cap {
        t
    } else {
        t.skip(t.len() - cap)
    }
}

/// De-interleaving splits over chunk boundaries: the samples a channel
/// receives from two chunks in a row are the samples of the first chunk
/// followed by the samples of the second, as long as the first chunk holds
/// whole frames.
pub proof fn lemma_channel_samples_split<T>(x: Seq<T>, y: Seq<T>, channels: int, c: int)
    requires
        1 <= channels,
        0 <= c < channels,
        x.len() as int % channels == 0,
    ensures
        channel_samples(x + y, channels, c) == channel_samples(x, channels, c) + channel_samples(
            y,
            channels,
            c,
        ),
{
    let nx = x.len() as int / channels;
    let ny = y.len() as int / channels;
    assert(nx * channels == x.len() && 0 <= nx && ((x + y).len() as int) / channels == nx + ny)
        by (nonlinear_arith)
        requires
            1 <= channels,
            x.len() as int % channels == 0,
            nx == x.len() as int / channels,
            ny == y.len() as int / channels,
            (x + y).len() == x.len() + y.len(),
    ;
    let lhs = channel_samples(x + y, channels, c);
    let rhs = channel_samples(x, channels, c) + channel_samples(y, channels, c);
    assert forall|s: int| 0 <= s < nx + ny implies lhs[s] == rhs[s] by {
        if s < nx {
            assert(0 <= s * channels + c && s * channels + c < x.len()) by (nonlinear_arith)
                requires
                    0 <= s,
                    s < nx,
                    0 <= c < channels,
                    nx * channels == x.len(),
            ;
        } else {
            assert(s * channels + c - x.len() == (s - nx) * channels + c && x.len() <= s * channels
                + c && 0 <= (s - nx) * channels + c && ((s - nx) * channels + c) < y.len())
                by (nonlinear_arith)
                requires
                    nx <= s,
                    s < nx + ny,
                    0 <= c < channels,
                    1 <= channels,
                    nx * channels == x.len(),
                    ny == y.len() as int / channels,
            ;
        }
    }
    assert(lhs =~= rhs);
}

/// Sliding a window by one chunk and then by another leaves exactly what
/// sliding it by the two chunks joined does: the window retains the most
/// recent samples of the stream no matter how the stream is cut into calls.
pub proof fn lemma_slide_split<T>(w: Seq<T>, x: Seq<T>, y: Seq<T>, cap: int)
    requires
        cap >= 0,
    ensures
        spec_slide(spec_slide(w, x, cap), y, cap) == spec_slide(w, x + y, cap),
{
    let once = spec_slide(w, x + y, cap);
    let twice = spec_slide(spec_slide(w, x, cap), y, cap);
    assert((w + x) + y =~= w + (x + y));
    assert(twice =~= once);
}

/// Sliding preserves suffixes: where a window holds the most recent samples
/// of a stream `h`, after one more chunk it holds the most recent samples of
/// the grown stream.
pub proof fn lemma_slide_is_suffix<T>(w: Seq<T>, h: Seq<T>, incoming: Seq<T>, cap: int)
    requires
        cap >= 0,
        w.len() <= h.len(),
        w == h.skip(h.len() - w.len()),
    ensures
        spec_slide(w, incoming, cap).len() <= (h + incoming).len(),
        spec_slide(w, incoming, cap) == (h + incoming).skip(
            (h + incoming).len() - spec_slide(w, incoming, cap).len(),
        ),
{
    let t = h + incoming;
    let r = spec_slide(w, incoming, cap);
    assert(r =~= t.skip(t.len() - r.len()));
}

/// One channel's fixed-size region of the flat storage.
pub open spec fn region<T>(data: Seq<T>, cap: int, c: int) -> Seq<T> {
    data.subrange(c * cap, c * cap + cap)
}

/// Per-channel history of the most recent `capacity` samples of each mapped
/// channel, with a shared fill cursor. Mutated only through [`Self::feed`]
/// and [`Self::advance`]; all storage is allocated at construction.
pub struct SlidingWindow<T> {
    data: Vec<T>,
    channels: usize,
    capacity: usize,
    block: usize,
    available: usize,
    total_fed: Ghost<int>,
    emitted: Ghost<int>,
    dropped: Ghost<bool>,
    hist: Ghost<Seq<Seq<T>>>,
}

impl<T: Copy> SlidingWindow<T> {
    /// Channels the window de-interleaves into.
    pub closed spec fn spec_channels(&self) -> int {
        self.channels as int
    }

    /// Samples each channel's history can hold; one convolution frame.
    pub closed spec fn spec_capacity(&self) -> int {
        self.capacity as int
    }

    /// Samples consumed from the front of every window per output frame.
    pub closed spec fn spec_block(&self) -> int {
        self.block as int
    }

    /// The shared fill cursor: meaningful samples per channel.
    pub closed spec fn spec_available(&self) -> int {
        self.available as int
    }

    /// Total frames ever fed, over the window's whole life.
    pub closed spec fn spec_total_fed(&self) -> int {
        self.total_fed@
    }

    /// Frames consumed from the window so far: one per output block.
    pub closed spec fn spec_emitted(&self) -> int {
        self.emitted@
    }

    /// Whether an overflowing chunk ever discarded samples unconsumed.
    pub closed spec fn spec_dropped(&self) -> bool {
        self.dropped@
    }

    /// Every sample each channel ever received, oldest first: the whole
    /// per-channel stream.
    pub closed spec fn spec_hist(&self) -> Seq<Seq<T>> {
        self.hist@
    }

    /// The meaningful samples of each channel, oldest first.
    pub closed spec fn contents(&self) -> Seq<Seq<T>> {
        Seq::new(
            self.channels as nat,
            |c: int|
                self.data@.subrange(
                    c * self.capacity as int,
                    c * self.capacity as int + self.available as int,
                ),
        )
    }

    /// Head/tail invariants: the cursor never passes the capacity, never
    /// passes the total ever fed, and the flat storage holds one
    /// capacity-sized region per channel.
    pub closed spec fn wf(&self) -> bool {
        &&& 1 <= self.channels <= MAX_CHANNELS
        &&& 1 <= self.block <= self.capacity
        &&& self.capacity <= usize::MAX / 2
        &&& self.data@.len() == self.channels * self.capacity
        &&& self.available <= self.capacity
        &&& self.available <= self.total_fed@
        &&& 0 <= self.emitted@
        &&& (!self.dropped@ ==> self.available == self.total_fed@ - self.emitted@ * self.block)
        &&& self.hist@.len() == self.channels
        &&& forall|c: int|
            0 <= c < self.channels ==> (#[trigger] self.hist@[c]).len() == self.total_fed@
        &&& forall|c: int|
            0 <= c < self.channels ==> #[trigger] self.contents()[c] == self.hist@[c].skip(
                self.total_fed@ - self.available,
            )
    }

    /// What every well-formed window guarantees of its spec-level shape.
    pub proof fn lemma_wf_bounds(&self)
        requires
            self.wf(),
        ensures
            1 <= self.spec_channels() <= MAX_CHANNELS,
            1 <= self.spec_block() <= self.spec_capacity(),
            0 <= self.spec_available() <= self.spec_capacity(),
            self.spec_available() <= self.spec_total_fed(),
            self.contents().len() == self.spec_channels(),
            forall|c: int|
                0 <= c < self.spec_channels() ==> (#[trigger] self.contents()[c]).len()
                    == self.spec_available(),
    {
        assert forall|c: int| 0 <= c < self.spec_channels() implies (
        #[trigger] self.contents()[c]).len() == self.spec_available() by {
            assert(0 <= c * self.spec_capacity() && c * self.spec_capacity()
                + self.spec_available() <= self.spec_channels() * self.spec_capacity())
                by (nonlinear_arith)
                requires
                    0 <= c,
                    c < self.spec_channels(),
                    0 <= self.spec_available(),
                    self.spec_available() <= self.spec_capacity(),
            ;
        }
    }

    /// Whether a full frame is available on every channel.
    pub open spec fn spec_ready(&self) -> bool {
        self.spec_available() == self.spec_capacity()
    }

    /// No frame can be ready before `capacity` samples were ever supplied:
    /// the initial-latency fill phase produces no output.
    pub proof fn lemma_fill_phase(&self)
        requires
            self.wf(),
            self.spec_total_fed() < self.spec_capacity(),
        ensures
            !self.spec_ready(),
    {
    }

    /// In the steady state — a frame was just consumed, so `block` samples
    /// of room are free — feeding exactly one block fills the window again:
    /// one block in, one block out.
    pub proof fn lemma_steady_state(&self, count: int)
        requires
            self.wf(),
            self.spec_available() == self.spec_capacity() - self.spec_block(),
            count == self.spec_block(),
        ensures
            self.spec_available() + count == self.spec_capacity(),
    {
    }

    /// The output schedule is a pure function of the total stream: while no
    /// sample was ever discarded by an overflowing chunk, a frame is ready
    /// exactly when the samples fed so far cover one full window plus the
    /// blocks already consumed — however the stream was cut into calls.
    pub proof fn lemma_emission_schedule(&self)
        requires
            self.wf(),
            !self.spec_dropped(),
        ensures
            self.spec_ready() <==> self.spec_total_fed() == self.spec_capacity()
                + self.spec_emitted() * self.spec_block(),
    {
    }

    /// Determinism over chunking: what the transform sees depends only on
    /// the stream. The window always holds exactly the most recent samples
    /// of each channel's total stream, however that stream was cut into
    /// calls; in particular every full frame handed to the transform is the
    /// last `capacity` samples of the stream at that point.
    pub proof fn lemma_stream_suffix(&self)
        requires
            self.wf(),
        ensures
            self.spec_hist().len() == self.spec_channels(),
            forall|c: int|
                0 <= c < self.spec_channels() ==> (#[trigger] self.spec_hist()[c]).len()
                    == self.spec_total_fed(),
            forall|c: int|
                0 <= c < self.spec_channels() ==> #[trigger] self.contents()[c]
                    == self.spec_hist()[c].skip(self.spec_total_fed() - self.spec_available()),
    {
    }

    /// Allocates the per-channel history, every sample set to `fill`.
    pub fn new(channels: usize, capacity: usize, block: usize, fill: T) -> (r: SlidingWindow<T>)
        requires
            1 <= channels <= MAX_CHANNELS,
            1 <= block <= capacity,
            capacity <= usize::MAX / 2,
            channels * capacity <= usize::MAX,
        ensures
            r.wf(),
            r.spec_channels() == channels,
            r.spec_capacity() == capacity,
            r.spec_block() == block,
            r.spec_available() == 0,
            r.spec_total_fed() == 0,
            r.spec_emitted() == 0,
            !r.spec_dropped(),
            forall|c: int| 0 <= c < channels ==> #[trigger] r.contents()[c] == Seq::<T>::empty(),
            forall|c: int| 0 <= c < channels ==> #[trigger] r.spec_hist()[c] == Seq::<T>::empty(),
    {
        let size: usize = channels * capacity;
        let mut data: Vec<T> = Vec::new();
        let mut i: usize = 0;
        while i < size
            invariant
                i <= size,
                data@.len() == i,
            decreases size - i,
        {
            data.push(fill);
            i = i + 1;
        }
        let r = SlidingWindow {
            data,
            channels,
            capacity,
            block,
            available: 0usize,
            total_fed: Ghost(0),
            emitted: Ghost(0),
            dropped: Ghost(false),
            hist: Ghost(Seq::new(channels as nat, |c: int| Seq::<T>::empty())),
        };
        proof {
            assert forall|c: int| 0 <= c < channels implies #[trigger] r.contents()[c] == Seq::<
                T,
            >::empty() by {
                assert(0 <= c * capacity as int && c * capacity as int <= channels as int
                    * capacity as int) by (nonlinear_arith)
                    requires
                        0 <= c,
                        c < channels as int,
                        0 <= capacity as int,
                ;
                assert(r.contents()[c] =~= Seq::<T>::empty());
            }
            assert forall|c: int| 0 <= c < channels implies #[trigger] r.hist@[c] == Seq::<
                T,
            >::empty() by {
                assert(r.hist@[c] =~= Seq::<T>::empty());
            }
            assert forall|c: int| 0 <= c < channels implies #[trigger] r.contents()[c]
                == r.hist@[c].skip(0) by {
                assert(r.contents()[c] == Seq::<T>::empty());
                assert(r.hist@[c] == Seq::<T>::empty());
                assert(Seq::<T>::empty().skip(0) =~= Seq::<T>::empty());
            }
            assert forall|c: int| 0 <= c < channels implies #[trigger] r.spec_hist()[c] == Seq::<
                T,
            >::empty() by {
                assert(r.hist@[c] == Seq::<T>::empty());
            }
        }
        r
    }

    /// Whether the next transform may run: every channel holds a full frame.
    pub fn ready(&self) -> (r: bool)
        requires
            self.wf(),
        ensures
            r == self.spec_ready(),
    {
        self.available >= self.capacity
    }

    /// How many meaningful samples each channel currently holds.
    pub fn available(&self) -> (r: usize)
        ensures
            r == self.spec_available(),
    {
        self.available
    }

    /// De-interleaves one chunk and appends it to every channel's history,
    /// first discarding the oldest samples where the chunk would overflow
    /// the capacity. Only whole interleaved frames are consumed; a caller's
    /// chunk is bounded by one window's worth of frames.
    pub fn feed(&mut self, input: &Vec<T>)
        requires
            old(self).wf(),
            input@.len() <= old(self).spec_channels() * old(self).spec_capacity(),
        ensures
            final(self).wf(),
            final(self).spec_channels() == old(self).spec_channels(),
            final(self).spec_capacity() == old(self).spec_capacity(),
            final(self).spec_block() == old(self).spec_block(),
            final(self).spec_total_fed() == old(self).spec_total_fed() + input@.len() as int
                / old(self).spec_channels(),
            final(self).spec_emitted() == old(self).spec_emitted(),
            final(self).spec_dropped() == (old(self).spec_dropped() || old(self).spec_available()
                + input@.len() as int / old(self).spec_channels() > old(self).spec_capacity()),
            final(self).spec_available() == ({
                let grown = old(self).spec_available() + input@.len() as int
                    / old(self).spec_channels();
                if grown <= old(self).spec_capacity() {
                    grown
                } else {
                    old(self).spec_capacity()
                }
            }),
            forall|c: int|
                0 <= c < old(self).spec_channels() ==> #[trigger] final(self).contents()[c]
                    == spec_slide(
                    old(self).contents()[c],
                    channel_samples(input@, old(self).spec_channels(), c),
                    old(self).spec_capacity(),
                ),
            forall|c: int|
                0 <= c < old(self).spec_channels() ==> #[trigger] final(self).spec_hist()[c]
                    == old(self).spec_hist()[c] + channel_samples(
                    input@,
                    old(self).spec_channels(),
                    c,
                ),
    {
        let ghost pre = *self;
        let count: usize = input.len() / self.channels;
        proof {
            assert(count <= pre.spec_capacity() && count * pre.spec_channels() <= input@.len())
                by (nonlinear_arith)
                requires
                    count == input@.len() as int / pre.spec_channels(),
                    input@.len() <= pre.spec_channels() * pre.spec_capacity(),
                    1 <= pre.spec_channels(),
                    0 <= pre.spec_capacity(),
            ;
        }
        let drop: usize = if self.available + count > self.capacity {
            self.available + count - self.capacity
        } else {
            0
        };
        let keep: usize = self.available - drop;
        let ghost expected = |cc: int|
            region(pre.data@, pre.spec_capacity(), cc).subrange(drop as int, pre.available as int)
                + channel_samples(input@, pre.spec_channels(), cc)
                + region(pre.data@, pre.spec_capacity(), cc).subrange(
                keep + count,
                pre.spec_capacity(),
            );
        let mut c: usize = 0;
        let mut base: usize = 0;
        while c < self.channels
            invariant
                pre.wf(),
                c <= pre.channels,
                base == c * pre.spec_capacity(),
                count <= pre.capacity,
                count * pre.spec_channels() <= input@.len(),
                input@.len() as int / pre.spec_channels() == count,
                drop == if pre.available + count > pre.capacity {
                    pre.available + count - pre.capacity
                } else {
                    0
                },
                keep == pre.available - drop,
                keep + count <= pre.capacity,
                expected == (|cc: int|
                    region(pre.data@, pre.spec_capacity(), cc).subrange(
                        drop as int,
                        pre.available as int,
                    ) + channel_samples(input@, pre.spec_channels(), cc) + region(
                        pre.data@,
                        pre.spec_capacity(),
                        cc,
                    ).subrange(keep + count, pre.spec_capacity())),
                self.channels == pre.channels,
                self.capacity == pre.capacity,
                self.block == pre.block,
                self.available == pre.available,
                self.total_fed == pre.total_fed,
                self.emitted == pre.emitted,
                self.dropped == pre.dropped,
                self.hist == pre.hist,
                self.data@.len() == pre.data@.len(),
                forall|i: int| base <= i < self.data@.len() ==> self.data@[i] == pre.data@[i],
                forall|cc: int|
                    0 <= cc < c ==> #[trigger] region(self.data@, pre.spec_capacity(), cc)
                        == expected(cc),
            decreases pre.channels - c,
        {
            proof {
                assert(base + pre.spec_capacity() <= pre.spec_channels() * pre.spec_capacity())
                    by (nonlinear_arith)
                    requires
                        base == c * pre.spec_capacity(),
                        c < pre.spec_channels(),
                        0 <= pre.spec_capacity(),
                ;
            }
            let ghost before = self.data@;
            region_shift_left(&mut self.data, base, self.available, drop);
            write_channel_samples(&mut self.data, base, keep, input, self.channels, c, count);
            proof {
                let cap = pre.spec_capacity();
                let ch = pre.spec_channels();
                assert(self.data.len() == self.data@.len());
                assert forall|s: int| 0 <= s < count implies channel_samples(input@, ch, c as int)[s]
                    == input@[s * ch + c] by {
                    assert(0 <= s * ch + c as int && (s * ch + c as int) < input@.len())
                        by (nonlinear_arith)
                        requires
                            0 <= s,
                            s < count as int,
                            0 <= c as int,
                            (c as int) < ch,
                            count * ch <= input@.len(),
                            1 <= ch,
                    ;
                }
                assert(region(self.data@, cap, c as int) =~= expected(c as int));
                assert forall|cc: int| 0 <= cc < c implies #[trigger] region(self.data@, cap, cc)
                    == expected(cc) by {
                    assert(cc * cap + cap <= c as int * cap) by (nonlinear_arith)
                        requires
                            0 <= cc < c as int,
                            0 <= cap,
                    ;
                    assert(region(self.data@, cap, cc) =~= region(before, cap, cc));
                }
                assert((c as int + 1) * cap == c as int * cap + cap) by (nonlinear_arith);
            }
            c = c + 1;
            base = base + self.capacity;
        }
        self.available = keep + count;
        proof {
            self.total_fed@ = pre.total_fed@ + count;
            self.dropped@ = pre.dropped@ || pre.available + count > pre.capacity;
            self.hist@ = Seq::new(
                pre.channels as nat,
                |c: int| pre.hist@[c] + channel_samples(input@, pre.spec_channels(), c),
            );
        }
        proof {
            let ch = pre.spec_channels();
            let cap = pre.spec_capacity();
            assert forall|cc: int| 0 <= cc < ch implies #[trigger] self.contents()[cc]
                == spec_slide(pre.contents()[cc], channel_samples(input@, ch, cc), cap) by {
                assert(cc * cap + cap <= ch * cap && 0 <= cc * cap) by (nonlinear_arith)
                    requires
                        0 <= cc < ch,
                        0 <= cap,
                ;
                assert(region(self.data@, cap, cc) == expected(cc));
                assert(self.contents()[cc] =~= spec_slide(
                    pre.contents()[cc],
                    channel_samples(input@, ch, cc),
                    cap,
                ));
            }
            pre.lemma_wf_bounds();
            assert forall|cc: int| 0 <= cc < ch implies #[trigger] self.contents()[cc]
                == self.hist@[cc].skip(self.total_fed@ - self.available) by {
                let incoming = channel_samples(input@, ch, cc);
                lemma_slide_is_suffix(pre.contents()[cc], pre.hist@[cc], incoming, cap);
                assert(spec_slide(pre.contents()[cc], incoming, cap).len()
                    == self.available as int);
            }
        }
    }

    /// Copies channel `c`'s full frame, oldest sample first, into a buffer
    /// the caller preallocated.
    pub fn copy_channel_into(&self, c: usize, dest: &mut Vec<T>)
        requires
            self.wf(),
            self.spec_ready(),
            c < self.spec_channels(),
            old(dest)@.len() == self.spec_capacity(),
        ensures
            final(dest)@ == self.contents()[c as int],
    {
        proof {
            assert(self.data.len() == self.data@.len());
            assert(c as int * self.spec_capacity() + self.spec_capacity() <= self.spec_channels()
                * self.spec_capacity() && 0 <= c as int * self.spec_capacity())
                by (nonlinear_arith)
                requires
                    0 <= c as int,
                    (c as int) < self.spec_channels(),
                    0 <= self.spec_capacity(),
            ;
        }
        let base: usize = c * self.capacity;
        let mut k: usize = 0;
        while k < self.capacity
            invariant
                self.data@.len() <= usize::MAX,
                self.wf(),
                self.spec_ready(),
                c < self.spec_channels(),
                base == c * self.spec_capacity(),
                base + self.spec_capacity() <= self.data@.len(),
                k <= self.capacity,
                dest@.len() == self.spec_capacity(),
                forall|j: int| 0 <= j < k ==> dest@[j] == self.data@[base + j],
            decreases self.capacity - k,
        {
            let v: T = self.data[base + k];
            dest.set(k, v);
            k = k + 1;
        }
        proof {
            assert(dest@ =~= self.contents()[c as int]);
        }
    }

    /// Slides every channel forward by one block, consuming the frame just
    /// read: the newest `capacity - block` samples are retained as the
    /// carry-over history of the next frame.
    pub fn advance(&mut self)
        requires
            old(self).wf(),
            old(self).spec_ready(),
        ensures
            final(self).wf(),
            final(self).spec_channels() == old(self).spec_channels(),
            final(self).spec_capacity() == old(self).spec_capacity(),
            final(self).spec_block() == old(self).spec_block(),
            final(self).spec_total_fed() == old(self).spec_total_fed(),
            final(self).spec_emitted() == old(self).spec_emitted() + 1,
            final(self).spec_dropped() == old(self).spec_dropped(),
            final(self).spec_available() == old(self).spec_capacity() - old(self).spec_block(),
            final(self).spec_hist() == old(self).spec_hist(),
            forall|c: int|
                0 <= c < old(self).spec_channels() ==> #[trigger] final(self).contents()[c]
                    == old(self).contents()[c].skip(old(self).spec_block()),
    {
        let ghost pre = *self;
        let ghost expected = |cc: int|
            region(pre.data@, pre.spec_capacity(), cc).subrange(
                pre.spec_block(),
                pre.spec_capacity(),
            ) + region(pre.data@, pre.spec_capacity(), cc).subrange(
                pre.spec_capacity() - pre.spec_block(),
                pre.spec_capacity(),
            );
        let mut c: usize = 0;
        let mut base: usize = 0;
        while c < self.channels
            invariant
                pre.wf(),
                pre.spec_ready(),
                c <= pre.channels,
                base == c * pre.spec_capacity(),
                expected == (|cc: int|
                    region(pre.data@, pre.spec_capacity(), cc).subrange(
                        pre.spec_block(),
                        pre.spec_capacity(),
                    ) + region(pre.data@, pre.spec_capacity(), cc).subrange(
                        pre.spec_capacity() - pre.spec_block(),
                        pre.spec_capacity(),
                    )),
                self.channels == pre.channels,
                self.capacity == pre.capacity,
                self.block == pre.block,
                self.available == pre.available,
                self.total_fed == pre.total_fed,
                self.emitted == pre.emitted,
                self.dropped == pre.dropped,
                self.hist == pre.hist,
                self.data@.len() == pre.data@.len(),
                forall|i: int| base <= i < self.data@.len() ==> self.data@[i] == pre.data@[i],
                forall|cc: int|
                    0 <= cc < c ==> #[trigger] region(self.data@, pre.spec_capacity(), cc)
                        == expected(cc),
            decreases pre.channels - c,
        {
            proof {
                assert(base + pre.spec_capacity() <= pre.spec_channels() * pre.spec_capacity())
                    by (nonlinear_arith)
                    requires
                        base == c * pre.spec_capacity(),
                        c < pre.spec_channels(),
                        0 <= pre.spec_capacity(),
                ;
            }
            let ghost before = self.data@;
            region_shift_left(&mut self.data, base, self.capacity, self.block);
            proof {
                let cap = pre.spec_capacity();
                assert(self.data.len() == self.data@.len());
                assert(region(self.data@, cap, c as int) =~= expected(c as int));
                assert forall|cc: int| 0 <= cc < c implies #[trigger] region(self.data@, cap, cc)
                    == expected(cc) by {
                    assert(cc * cap + cap <= c as int * cap) by (nonlinear_arith)
                        requires
                            0 <= cc < c as int,
                            0 <= cap,
                    ;
                    assert(region(self.data@, cap, cc) =~= region(before, cap, cc));
                }
                assert((c as int + 1) * cap == c as int * cap + cap) by (nonlinear_arith);
            }
            c = c + 1;
            base = base + self.capacity;
        }
        self.available = self.capacity - self.block;
        proof {
            self.emitted@ = pre.emitted@ + 1;
            let ch = pre.spec_channels();
            let cap = pre.spec_capacity();
            pre.lemma_wf_bounds();
            assert((pre.emitted@ + 1) * pre.spec_block() == pre.emitted@ * pre.spec_block()
                + pre.spec_block()) by (nonlinear_arith);
            assert forall|cc: int| 0 <= cc < ch implies #[trigger] self.contents()[cc]
                == pre.contents()[cc].skip(pre.spec_block()) && self.contents()[cc]
                == self.hist@[cc].skip(self.total_fed@ - self.available) by {
                assert(cc * cap + cap <= ch * cap && 0 <= cc * cap) by (nonlinear_arith)
                    requires
                        0 <= cc < ch,
                        0 <= cap,
                ;
                assert(region(self.data@, cap, cc) == expected(cc));
                assert(self.contents()[cc] =~= pre.contents()[cc].skip(pre.spec_block()));
                assert(pre.contents()[cc].len() == cap);
                assert(pre.hist@[cc].len() == pre.total_fed@);
                assert(pre.contents()[cc] == pre.hist@[cc].skip(pre.total_fed@ - cap));
                vstd::seq_lib::lemma_seq_skip_of_skip(
                    pre.hist@[cc],
                    pre.total_fed@ - cap,
                    pre.spec_block(),
                );
                assert(pre.contents()[cc].skip(pre.spec_block()) == self.hist@[cc].skip(
                    self.total_fed@ - self.available,
                ));
            }
        }
    }
}

/// Moves the first `len` samples of the region at `base` left by `d`
/// places, in place; everything outside the shifted span is untouched.
fn region_shift_left<T: Copy>(data: &mut Vec<T>, base: usize, len: usize, d: usize)
    requires
        base + len <= old(data)@.len(),
        d <= len,
    ensures
        final(data)@.len() == old(data)@.len(),
        forall|i: int|
            base <= i < base + (len - d) ==> #[trigger] final(data)@[i] == old(data)@[i + d],
        forall|i: int|
            0 <= i < old(data)@.len() && !(base <= i < base + (len - d))
                ==> #[trigger] final(data)@[i] == old(data)@[i],
{
    proof {
        assert(data.len() == data@.len());
    }
    let mut k: usize = 0;
    while k < len - d
        invariant
            old(data)@.len() <= usize::MAX,
            base + len <= old(data)@.len(),
            d <= len,
            k <= len - d,
            data@.len() == old(data)@.len(),
            forall|i: int| base <= i < base + k ==> #[trigger] data@[i] == old(data)@[i + d],
            forall|i: int|
                0 <= i < data@.len() && !(base <= i < base + k) ==> #[trigger] data@[i] == old(
                    data,
                )@[i],
        decreases len - d - k,
    {
        let v: T = data[base + d + k];
        data.set(base + k, v);
        k = k + 1;
    }
}

/// Writes channel `c`'s samples of an interleaved chunk into the region at
/// `base`, starting `at` samples in; everything else is untouched.
fn write_channel_samples<T: Copy>(
    data: &mut Vec<T>,
    base: usize,
    at: usize,
    input: &Vec<T>,
    channels: usize,
    c: usize,
    count: usize,
)
    requires
        1 <= channels,
        c < channels,
        count * channels <= input@.len(),
        base + at + count <= old(data)@.len(),
    ensures
        final(data)@.len() == old(data)@.len(),
        forall|i: int|
            base + at <= i < base + at + count ==> #[trigger] final(data)@[i] == input@[(i - base
                - at) * channels + c],
        forall|i: int|
            0 <= i < old(data)@.len() && !(base + at <= i < base + at + count)
                ==> #[trigger] final(data)@[i] == old(data)@[i],
{
    proof {
        assert(input.len() == input@.len());
        assert(data.len() == data@.len());
    }
    let mut s: usize = 0;
    while s < count
        invariant
            input@.len() <= usize::MAX,
            old(data)@.len() <= usize::MAX,
            1 <= channels,
            c < channels,
            count * channels as int <= input@.len(),
            base + at + count <= old(data)@.len(),
            s <= count,
            data@.len() == old(data)@.len(),
            forall|i: int|
                base + at <= i < base + at + s ==> #[trigger] data@[i] == input@[(i - base - at)
                    * channels + c],
            forall|i: int|
                0 <= i < data@.len() && !(base + at <= i < base + at + s) ==> #[trigger] data@[i]
                    == old(data)@[i],
        decreases count - s,
    {
        proof {
            assert(0 <= s * channels && s * channels + c < count * channels) by (nonlinear_arith)
                requires
                    0 <= s < count,
                    0 <= c < channels,
            ;
        }
        let idx: usize = s * channels + c;
        let v: T = input[idx];
        data.set(base + at + s, v);
        s = s + 1;
    }
}

} // verus!
