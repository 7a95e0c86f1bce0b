use vstd::prelude::*;

use crate::session::{ChannelCount, SampleRate};

verus! {

/// One PCM amplitude: signed 16-bit, full scale.
pub type Sample = i16;

/// Trait for a source of audio that outputs interleaved PCM at a given sample rate.
///
/// A source "remembers" its progress: each call of `write_samples` continues where the
/// previous one stopped. A call that writes fewer samples than the buffer holds marks the
/// end of the sound, and every later call writes nothing and returns 0.
pub trait Source {
    /// The state is well formed.
    spec fn wf(&self) -> bool;

    /// Number of channels, fixed for the lifetime of the source.
    spec fn channels(&self) -> u16;

    /// Sample rate, fixed for the lifetime of the source.
    spec fn rate(&self) -> u32;

    /// The source has signalled the end of its sound.
    spec fn exhausted(&self) -> bool;

    /// Returns the number of channels in this source.
    fn channel_count(&self) -> (r: ChannelCount)
        requires
            self.wf(),
        ensures
            r == self.channels(),
            r > 0,
    ;

    /// Returns the sample rate the written data should be interpreted at.
    fn sample_rate(&self) -> (r: SampleRate)
        requires
            self.wf(),
        ensures
            r == self.rate(),
            r > 0,
    ;

    /// Writes the next samples to the start of `buffer` and returns how many were written.
    fn write_samples(&mut self, buffer: &mut [Sample]) -> (n: usize)
        requires
            old(self).wf(),
        ensures
            final(self).wf(),
            final(self).channels() == old(self).channels(),
            final(self).rate() == old(self).rate(),
            final(buffer)@.len() == old(buffer)@.len(),
            n <= old(buffer)@.len(),
            n < old(buffer)@.len() ==> final(self).exhausted(),
            old(self).exhausted() ==> n == 0 && final(self).exhausted(),
            old(self).exhausted() ==> final(buffer)@ == old(buffer)@,
    ;
}

} // verus!
