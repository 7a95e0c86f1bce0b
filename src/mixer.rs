//! Mixing several sources of one format into one, with clipping.
use vstd::prelude::*;

use crate::session::{ChannelCount, SampleRate};
use crate::source::{Sample, Source};

verus! {

/// `a + b` clipped to the sample range.
pub open spec fn clip_add(a: Sample, b: Sample) -> Sample {
    let s = a + b;
    if s > 32767 {
        32767i16
    } else if s < -32768 {
        -32768i16
    } else {
        s as Sample
    }
}

/// Sample `j` of the clipped running sum of `writes`, one source's output after another,
/// starting from silence; a write shorter than `j + 1` adds nothing there.
pub open spec fn mix_at(writes: Seq<Seq<Sample>>, j: int) -> Sample
    decreases writes.len(),
{
    if writes.len() == 0 {
        0
    } else {
        let acc = mix_at(writes.drop_last(), j);
        let w = writes.last();
        if 0 <= j < w.len() {
            clip_add(acc, w[j])
        } else {
            acc
        }
    }
}

/// Adds the first `count` samples of `src` into `acc`, clipping each sum to the sample range.
pub fn mix_into(acc: &mut [Sample], src: &[Sample], count: usize)
    requires
        count <= old(acc)@.len(),
        count <= src@.len(),
    ensures
        final(acc)@.len() == old(acc)@.len(),
        forall|i: int| 0 <= i < count ==> #[trigger] final(acc)@[i] == clip_add(old(acc)@[i], src@[i]),
        forall|i: int| count <= i < old(acc)@.len() ==> #[trigger] final(acc)@[i] == old(acc)@[i],
{
    let ghost before = acc@;
    let mut i: usize = 0;
    while i < count
        invariant
            i <= count,
            count <= acc@.len(),
            count <= src@.len(),
            acc@.len() == before.len(),
            forall|j: int| 0 <= j < i ==> #[trigger] acc@[j] == clip_add(before[j], src@[j]),
            forall|j: int| i <= j < before.len() ==> #[trigger] acc@[j] == before[j],
        decreases count - i,
    {
        let s = acc[i] as i32 + src[i] as i32;
        let v: Sample = if s > 32767 {
            32767
        } else if s < -32768 {
            -32768
        } else {
            s as Sample
        };
        acc[i] = v;
        i = i + 1;
    }
}

/// Sums any number of sources of one channel count and sample rate. A source that writes
/// fewer samples than asked is dropped; the mixer ends once none is left.
pub struct Mixer<S: Source> {
    sources: Vec<S>,
    channels: ChannelCount,
    sample_rate: SampleRate,
    ended: bool,
    retired: Ghost<Seq<S>>,
    writes: Ghost<Seq<Seq<Sample>>>,
}

impl<S: Source> Mixer<S> {
    /// The sources still playing.
    pub closed spec fn active(&self) -> Seq<S> {
        self.sources@
    }

    /// What each active source wrote in the last call of `write_samples`, in order.
    pub closed spec fn last_writes(&self) -> Seq<Seq<Sample>> {
        self.writes@
    }

    /// The sources dropped so far, each as it was when it ended.
    pub closed spec fn retired(&self) -> Seq<S> {
        self.retired@
    }

    /// An empty mixer producing `channels` channels at `sample_rate`.
    pub fn new(channels: ChannelCount, sample_rate: SampleRate) -> (r: Self)
        requires
            channels > 0,
            sample_rate > 0,
        ensures
            r.wf(),
            r.channels() == channels,
            r.rate() == sample_rate,
            r.active().len() == 0,
            r.retired().len() == 0,
            !r.exhausted(),
    {
        Mixer { sources: Vec::new(), channels, sample_rate, ended: false, retired: Ghost(Seq::empty()), writes: Ghost(Seq::empty()) }
    }

    /// Number of sources still playing.
    pub fn len(&self) -> (r: usize)
        ensures
            r == self.active().len(),
    {
        self.sources.len()
    }

    /// Adds `source`; one of another channel count or sample rate, or a mixer that has
    /// already ended, hands it back.
    pub fn add(&mut self, source: S) -> (r: Result<(), S>)
        requires
            old(self).wf(),
            source.wf(),
        ensures
            final(self).wf(),
            final(self).channels() == old(self).channels(),
            final(self).rate() == old(self).rate(),
            final(self).exhausted() == old(self).exhausted(),
            r is Ok <==> (!old(self).exhausted() && source.channels() == old(self).channels()
                && source.rate() == old(self).rate()),
            final(self).retired() == old(self).retired(),
            r is Ok ==> final(self).active() == old(self).active().push(source),
            r is Err ==> final(self).active() == old(self).active() && r->Err_0 == source,
    {
        if self.ended || source.channel_count() != self.channels || source.sample_rate() != self.sample_rate {
            return Err(source);
        }
        self.sources.push(source);
        Ok(())
    }
}

impl<S: Source> Source for Mixer<S> {
    closed spec fn wf(&self) -> bool {
        &&& self.channels > 0
        &&& self.sample_rate > 0
        &&& forall|i: int| 0 <= i < self.sources@.len() ==> {
            let s = #[trigger] self.sources@[i];
            s.wf() && s.channels() == self.channels && s.rate() == self.sample_rate
        }
        &&& self.ended ==> self.sources@.len() == 0
        &&& forall|i: int| 0 <= i < self.retired@.len() ==> (#[trigger] self.retired@[i]).exhausted()
    }

    closed spec fn channels(&self) -> u16 {
        self.channels
    }

    closed spec fn rate(&self) -> u32 {
        self.sample_rate
    }

    closed spec fn exhausted(&self) -> bool {
        self.ended
    }

    fn channel_count(&self) -> (r: ChannelCount) {
        self.channels
    }

    fn sample_rate(&self) -> (r: SampleRate) {
        self.sample_rate
    }

    fn write_samples(&mut self, buffer: &mut [Sample]) -> (n: usize)
        ensures
            final(self).active().len() <= old(self).active().len(),
            !old(self).exhausted() ==> (final(self).exhausted() <==> final(self).active().len() == 0),
            final(self).active().len() > 0 ==> n == old(buffer)@.len(),
            final(self).retired().subrange(0, old(self).retired().len() as int) == old(self).retired(),
            final(self).retired().len() - old(self).retired().len() == old(self).active().len()
                - final(self).active().len(),
            !old(self).exhausted() ==> final(self).last_writes().len() == old(self).active().len(),
            !old(self).exhausted() ==> forall|j: int|
                0 <= j < old(buffer)@.len() ==> #[trigger] final(buffer)@[j] == mix_at(final(self).last_writes(), j),
    {
        if self.ended {
            return 0;
        }
        let len = buffer.len();
        let mut z: usize = 0;
        while z < len
            invariant
                z <= len,
                len == buffer@.len(),
                forall|j: int| 0 <= j < z ==> #[trigger] buffer@[j] == 0,
            decreases len - z,
        {
            buffer[z] = 0;
            z = z + 1;
        }
        let mut longest: usize = 0;
        let mut i: usize = 0;
        self.writes = Ghost(Seq::empty());
        assert(self.retired@.subrange(0, self.retired@.len() as int) =~= self.retired@);
        while i < self.sources.len()
            invariant
                self.wf(),
                !self.ended,
                self.channels == old(self).channels,
                self.sample_rate == old(self).sample_rate,
                i <= self.sources@.len(),
                self.sources@.len() <= old(self).sources@.len(),
                self.retired@.len() >= old(self).retired@.len(),
                self.retired@.subrange(0, old(self).retired@.len() as int) == old(self).retired@,
                self.retired@.len() - old(self).retired@.len() == old(self).sources@.len() - self.sources@.len(),
                longest <= len,
                len == buffer@.len(),
                self.writes@.len() == i + (old(self).sources@.len() - self.sources@.len()),
                forall|j: int| 0 <= j < len ==> #[trigger] buffer@[j] == mix_at(self.writes@, j),
            decreases self.sources@.len() - i,
        {
            let mut src = self.sources.remove(i);
            let mut scratch: Vec<Sample> = vec![0; len];
            let k = src.write_samples(scratch.as_mut_slice());
            let ghost before = buffer@;
            let ghost prior = self.writes@;
            mix_into(buffer, scratch.as_slice(), k);
            proof {
                let w = scratch@.subrange(0, k as int);
                self.writes = Ghost(prior.push(w));
                assert(self.writes@.drop_last() =~= prior);
                assert forall|j: int| 0 <= j < len implies #[trigger] buffer@[j] == mix_at(self.writes@, j) by {
                    assert(before[j] == mix_at(prior, j));
                }
            }
            if k > longest {
                longest = k;
            }
            if k < len {
                let ghost before = self.retired@;
                self.retired = Ghost(self.retired@.push(src));
                assert(self.retired@.subrange(0, old(self).retired@.len() as int)
                    =~= before.subrange(0, old(self).retired@.len() as int));
            } else {
                self.sources.insert(i, src);
                i = i + 1;
            }
        }
        if self.sources.len() == 0 {
            self.ended = true;
            longest
        } else {
            len
        }
    }
}

} // verus!
