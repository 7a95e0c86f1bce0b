use vstd::prelude::*;

use crate::session::{ChannelCount, SampleRate};
use crate::source::{Sample, Source};

verus! {

/// A basic sound-playing object: plays the samples it holds, once, until it has no more.
///
/// If the samples have another sample rate than the output stream, the output sounds sped
/// up or slowed down; put a resampler in front of it to play it at the right speed.
pub struct Player {
    samples: Vec<Sample>,
    channels: ChannelCount,
    sample_rate: SampleRate,
    offset: usize,
}

/// How many samples one call hands out when `left` samples remain and the buffer holds `len`.
pub open spec fn chunk(left: nat, len: nat) -> nat {
    if left < len { left } else { len }
}

/// Total handed out by `calls` successive calls with buffers of `len` samples, starting
/// with `left` samples remaining.
pub open spec fn drained(left: nat, len: nat, calls: nat) -> nat
    decreases calls,
{
    if calls == 0 {
        0
    } else {
        let c = chunk(left, len);
        c + drained((left - c) as nat, len, (calls - 1) as nat)
    }
}

/// Repeated calls with buffers of `len > 0` samples hand out every sample exactly once:
/// once `calls * len` reaches the sample count the total equals it, and from then on each
/// call hands out nothing.
pub proof fn lemma_player_drains(left: nat, len: nat, calls: nat)
    requires
        len > 0,
        calls * len >= left,
    ensures
        drained(left, len, calls) == left,
        chunk(0, len) == 0,
    decreases calls,
{
    if calls == 0 {
        assert(calls * len == 0) by (nonlinear_arith)
            requires
                calls == 0,
        ;
    } else {
        let c = chunk(left, len);
        assert((calls - 1) * len + len == calls * len) by (nonlinear_arith);
        lemma_player_drains((left - c) as nat, len, (calls - 1) as nat);
    }
}

impl Player {
    /// All samples the player holds.
    pub closed spec fn samples(&self) -> Seq<Sample> {
        self.samples@
    }

    /// How many samples have been handed out so far.
    pub closed spec fn offset(&self) -> nat {
        self.offset as nat
    }

    /// The samples not yet handed out.
    pub open spec fn remaining(&self) -> Seq<Sample> {
        self.samples().subrange(self.offset() as int, self.samples().len() as int)
    }

    pub fn new(channels: ChannelCount, sample_rate: SampleRate, samples: Box<[Sample]>) -> (r: Self)
        requires
            channels > 0,
            sample_rate > 0,
        ensures
            r.wf(),
            r.channels() == channels,
            r.rate() == sample_rate,
            r.samples() == samples@,
            r.offset() == 0,
    {
        Self { channels, sample_rate, samples: samples.into_vec(), offset: 0 }
    }
}

impl Source for Player {
    closed spec fn wf(&self) -> bool {
        &&& self.channels > 0
        &&& self.sample_rate > 0
        &&& self.offset <= self.samples@.len()
    }

    closed spec fn channels(&self) -> u16 {
        self.channels
    }

    closed spec fn rate(&self) -> u32 {
        self.sample_rate
    }

    closed spec fn exhausted(&self) -> bool {
        self.offset >= self.samples@.len()
    }

    fn channel_count(&self) -> (r: ChannelCount) {
        self.channels
    }

    fn sample_rate(&self) -> (r: SampleRate) {
        self.sample_rate
    }

    fn write_samples(&mut self, buffer: &mut [Sample]) -> (n: usize)
        ensures
            n == chunk(old(self).remaining().len(), old(buffer)@.len() as nat),
            final(self).offset() == old(self).offset() + n,
            final(self).samples() == old(self).samples(),
            final(buffer)@.subrange(0, n as int) == old(self).remaining().subrange(0, n as int),
            final(buffer)@.subrange(n as int, old(buffer)@.len() as int)
                == old(buffer)@.subrange(n as int, old(buffer)@.len() as int),
    {
        let total = self.samples.len();
        let rest = total - self.offset;
        let n: usize = if rest < buffer.len() { rest } else { buffer.len() };
        let ghost start = self.offset as int;
        let ghost before = buffer@;
        let mut i: usize = 0;
        while i < n
            invariant
                0 <= i <= n,
                n <= buffer@.len(),
                start + n <= self.samples@.len(),
                total == self.samples@.len(),
                start == self.offset,
                buffer@.len() == before.len(),
                forall|j: int| 0 <= j < i ==> buffer@[j] == self.samples@[start + j],
                forall|j: int| i <= j < before.len() ==> buffer@[j] == before[j],
            decreases n - i,
        {
            buffer[i] = self.samples[self.offset + i];
            i = i + 1;
        }
        self.offset = self.offset + n;
        assert(buffer@.subrange(0, n as int) =~= old(self).remaining().subrange(0, n as int));
        assert(buffer@.subrange(n as int, before.len() as int) =~= before.subrange(n as int, before.len() as int));
        n
    }
}

} // verus!
