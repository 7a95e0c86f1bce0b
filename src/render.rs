//! Decisions of the real-time render loop: when to pull from the source, when to write
//! silence, and when every sample the source produced has been played out.
use vstd::prelude::*;

use crate::error::Error;
use crate::session::SampleType;
use crate::source::{Sample, Source};

verus! {

/// Frames needed to hold `samples` interleaved samples of `channels` channels; a partial
/// frame counts as a whole one.
pub open spec fn frames_for(samples: nat, channels: nat) -> nat
    recommends
        channels > 0,
{
    ((samples + channels - 1) / channels as int) as nat
}

proof fn lemma_frames_for(n: int, c: int)
    requires
        n >= 0,
        c > 0,
    ensures
        frames_for(n as nat, c as nat) == n / c + if n % c == 0 { 0int } else { 1int },
{
    let q = n / c;
    let r = n % c;
    vstd::arithmetic::div_mod::lemma_fundamental_div_mod(n, c);
    assert(n == q * c + r) by (nonlinear_arith)
        requires
            n == c * q + r,
    ;
    if r == 0 {
        vstd::arithmetic::div_mod::lemma_fundamental_div_mod_converse(n + c - 1, c, q, c - 1);
    } else {
        assert(n + c - 1 == (q + 1) * c + (r - 1)) by (nonlinear_arith)
            requires
                n == q * c + r,
        ;
        vstd::arithmetic::div_mod::lemma_fundamental_div_mod_converse(n + c - 1, c, q + 1, r - 1);
    }
}

/// Pulls samples from `source` into `buffer` and zero-fills whatever it left unwritten.
/// Returns the number of frames holding sound.
pub fn fill_from<S: Source>(source: &mut S, buffer: &mut [Sample], channels: u16) -> (frames: usize)
    requires
        old(source).wf(),
        channels > 0,
    ensures
        final(source).wf(),
        final(source).channels() == old(source).channels(),
        final(source).rate() == old(source).rate(),
        final(buffer)@.len() == old(buffer)@.len(),
        exists|n: nat|
            #![trigger frames_for(n, channels as nat)]
            {
                &&& n <= old(buffer)@.len()
                &&& frames == frames_for(n, channels as nat)
                &&& (n < old(buffer)@.len() ==> final(source).exhausted())
                &&& (old(source).exhausted() ==> n == 0)
                &&& forall|j: int| n <= j < old(buffer)@.len() ==> final(buffer)@[j] == 0
            },
{
    let n = source.write_samples(buffer);
    let len = buffer.len();
    let mut i: usize = n;
    while i < len
        invariant
            n <= i <= len,
            len == buffer@.len(),
            forall|j: int| n <= j < i ==> buffer@[j] == 0,
        decreases len - i,
    {
        buffer[i] = 0;
        i = i + 1;
    }
    let ch = channels as usize;
    let q = n / ch;
    let frames = if n % ch == 0 {
        q
    } else {
        assert(q < n) by (nonlinear_arith)
            requires
                q == n / ch,
                n % ch != 0,
                ch > 0,
        {
            assert(ch != 1);
        };
        q + 1
    };
    proof {
        lemma_frames_for(n as int, ch as int);
    }
    frames
}

/// Status a native stream call reports once its device is gone.
pub const AUDCLNT_E_DEVICE_INVALIDATED: i32 = -2004287484;

/// How the status of a stream call reads: a lost device is never retried, any other
/// failure is unknown.
pub open spec fn stream_status_result(status: i32) -> Result<(), Error> {
    if status >= 0 {
        Ok(())
    } else if status == AUDCLNT_E_DEVICE_INVALIDATED {
        Err(Error::DeviceNotAvailable)
    } else {
        Err(Error::Unknown)
    }
}

/// Maps the status of a stream call to the error taxonomy.
pub fn check_stream_status(status: i32) -> (r: Result<(), Error>)
    ensures
        r == stream_status_result(status),
{
    if status >= 0 {
        Ok(())
    } else if status == AUDCLNT_E_DEVICE_INVALIDATED {
        Err(Error::DeviceNotAvailable)
    } else {
        Err(Error::Unknown)
    }
}

/// Format tag of integer PCM.
pub const WAVE_FORMAT_PCM: u16 = 1;

/// Format tag of IEEE float PCM.
pub const WAVE_FORMAT_IEEE_FLOAT: u16 = 3;

/// Format tag saying that the sub-format holds the real tag.
pub const WAVE_FORMAT_EXTENSIBLE: u16 = 65534;

/// A device's negotiated native format; channel count and sample rate are never zero.
#[derive(Copy, Clone, Debug, PartialEq, Eq, Structural)]
pub struct DeviceFormat {
    pub channels: u16,
    pub sample_rate: u32,
    pub sample_type: SampleType,
}

/// The sample encoding a native format describes, if this engine understands it.
pub open spec fn encoding_of(tag: u16, bits: u16, sub_tag: u16) -> Option<SampleType> {
    let t = if tag == WAVE_FORMAT_EXTENSIBLE { sub_tag } else { tag };
    if t == WAVE_FORMAT_PCM && bits == 16 {
        Some(SampleType::I16)
    } else if t == WAVE_FORMAT_IEEE_FLOAT && bits == 32 {
        Some(SampleType::F32)
    } else {
        None
    }
}

impl DeviceFormat {
    pub open spec fn wf(&self) -> bool {
        self.channels > 0 && self.sample_rate > 0
    }

    /// Reads a native format description: the sample encoding comes from the format tag, or
    /// from the sub-format tag of an extensible format, with the bit depth.
    pub fn negotiate(channels: u16, sample_rate: u32, tag: u16, bits: u16, sub_tag: u16)
        -> (r: Result<DeviceFormat, Error>)
        ensures
            r is Ok <==> (channels > 0 && sample_rate > 0 && encoding_of(tag, bits, sub_tag) is Some),
            r is Err ==> r->Err_0 == Error::DeviceNotUsable,
            r is Ok ==> r->Ok_0 == (DeviceFormat {
                channels,
                sample_rate,
                sample_type: encoding_of(tag, bits, sub_tag)->Some_0,
            }),
            r is Ok ==> r->Ok_0.wf(),
    {
        if channels == 0 || sample_rate == 0 {
            return Err(Error::DeviceNotUsable);
        }
        let t = if tag == WAVE_FORMAT_EXTENSIBLE { sub_tag } else { tag };
        if t == WAVE_FORMAT_PCM && bits == 16 {
            Ok(DeviceFormat { channels, sample_rate, sample_type: SampleType::I16 })
        } else if t == WAVE_FORMAT_IEEE_FLOAT && bits == 32 {
            Ok(DeviceFormat { channels, sample_rate, sample_type: SampleType::F32 })
        } else {
            Err(Error::DeviceNotUsable)
        }
    }
}

/// Where the render loop stands.
#[derive(Copy, Clone, Debug, PartialEq, Eq, Structural)]
pub enum Phase {
    /// The source still produces sound.
    Streaming,
    /// The source has ended; freed space is filled with silence.
    Draining,
}

/// What the render loop asks of its driver after a wake-up.
#[derive(Copy, Clone, Debug, PartialEq, Eq, Structural)]
pub enum RenderAction {
    /// Nothing is free: wait for the next wake-up.
    Wait,
    /// Pull this many frames from the source into the freed space.
    Fill(u32),
    /// Write this many frames of silence into the freed space.
    Silence(u32),
    /// Everything the source produced has been played: stop the transport.
    Stop,
}

/// The last `k` entries of `frames` are all silence (`false`).
pub open spec fn tail_silent(frames: Seq<bool>, k: nat) -> bool {
    &&& k <= frames.len()
    &&& forall|i: int| frames.len() - k <= i < frames.len() ==> !#[trigger] frames[i]
}

/// `count` frames of which the first `audible` hold sound.
pub open spec fn fill_frames(count: nat, audible: nat) -> Seq<bool> {
    Seq::new(count, |i: int| i < audible)
}

/// The render loop's state: the buffer's capacity in frames, the phase, and how many of the
/// most recently written frames are silence (counted up to the capacity).
pub struct RenderLoop {
    capacity: u32,
    silence: u32,
    phase: Phase,
    frames: Ghost<Seq<bool>>,
}

impl RenderLoop {
    pub closed spec fn capacity(&self) -> nat {
        self.capacity as nat
    }

    pub closed spec fn silence(&self) -> nat {
        self.silence as nat
    }

    pub closed spec fn phase(&self) -> Phase {
        self.phase
    }

    /// Every frame handed to the backend so far, in order: `true` for one holding sound.
    pub closed spec fn submitted(&self) -> Seq<bool> {
        self.frames@
    }

    pub open spec fn wf(&self) -> bool {
        &&& self.capacity() > 0
        &&& self.silence() <= self.capacity()
        &&& self.phase() is Streaming ==> self.silence() == 0
        &&& tail_silent(self.submitted(), self.silence())
    }

    /// Once the loop has finished, the last `capacity` frames handed to the backend are all
    /// silence. The backend holds at most `capacity` frames, so every frame with sound in it
    /// has been played out before the transport stops.
    pub proof fn lemma_finished_played_out(&self)
        requires
            self.wf(),
            self.is_finished(),
        ensures
            self.submitted().len() >= self.capacity(),
            forall|i: int|
                self.submitted().len() - self.capacity() <= i < self.submitted().len()
                    ==> !#[trigger] self.submitted()[i],
    {
    }

    /// Every frame in the buffer is silence: all sound the source produced has been played.
    pub open spec fn is_finished(&self) -> bool {
        self.phase() is Draining && self.silence() == self.capacity()
    }

    /// A loop for a buffer of `capacity` frames, about to prime it from the source.
    pub fn new(capacity: u32) -> (r: Self)
        requires
            capacity > 0,
        ensures
            r.wf(),
            r.capacity() == capacity,
            r.phase() is Streaming,
            r.silence() == 0,
            r.submitted() == Seq::<bool>::empty(),
    {
        RenderLoop { capacity, silence: 0, phase: Phase::Streaming, frames: Ghost(Seq::empty()) }
    }

    /// Whether all sound has been played out.
    pub fn finished(&self) -> (r: bool)
        ensures
            r == self.is_finished(),
    {
        match self.phase {
            Phase::Draining => self.silence == self.capacity,
            Phase::Streaming => false,
        }
    }

    /// Records a fill of `requested` frames of which `audible` hold sound: fewer means the
    /// source has ended, and the rest of the fill is the first silence.
    pub fn record_fill(&mut self, requested: u32, audible: usize)
        requires
            old(self).wf(),
            old(self).phase() is Streaming,
            requested <= old(self).capacity(),
            audible <= requested,
        ensures
            final(self).wf(),
            final(self).capacity() == old(self).capacity(),
            final(self).submitted() == old(self).submitted() + fill_frames(requested as nat, audible as nat),
            audible == requested ==> final(self).phase() == old(self).phase()
                && final(self).silence() == old(self).silence(),
            audible < requested ==> final(self).phase() is Draining
                && final(self).silence() == requested - audible,
    {
        let ghost added = fill_frames(requested as nat, audible as nat);
        self.frames = Ghost(self.frames@ + added);
        if (audible as u32) < requested {
            self.phase = Phase::Draining;
            self.silence = requested - audible as u32;
            assert forall|i: int|
                self.frames@.len() - self.silence <= i < self.frames@.len() implies !#[trigger] self.frames@[i] by {
                assert(self.frames@[i] == added[i - old(self).frames@.len()]);
            }
        }
    }

    /// Decides what to do after a wake-up that found `free` frames of the buffer free.
    pub fn on_wake(&mut self, free: u32) -> (r: RenderAction)
        requires
            old(self).wf(),
            free <= old(self).capacity(),
        ensures
            final(self).wf(),
            final(self).capacity() == old(self).capacity(),
            final(self).phase() == old(self).phase(),
            old(self).is_finished() ==> r == RenderAction::Stop && *final(self) == *old(self),
            !old(self).is_finished() && free == 0 ==> r == RenderAction::Wait && *final(self) == *old(self),
            !old(self).is_finished() && free > 0 && old(self).phase() is Streaming
                ==> r == RenderAction::Fill(free) && *final(self) == *old(self),
            !old(self).is_finished() && free > 0 && old(self).phase() is Draining
                ==> r == RenderAction::Silence(free)
                && final(self).silence() == vstd::math::min(
                    old(self).silence() + free,
                    old(self).capacity() as int,
                )
                && final(self).submitted() == old(self).submitted() + fill_frames(free as nat, 0),
    {
        if self.finished() {
            RenderAction::Stop
        } else if free == 0 {
            RenderAction::Wait
        } else {
            match self.phase {
                Phase::Streaming => RenderAction::Fill(free),
                Phase::Draining => {
                    let ghost added = fill_frames(free as nat, 0);
                    self.frames = Ghost(self.frames@ + added);
                    let room = self.capacity - self.silence;
                    self.silence = if free < room { self.silence + free } else { self.capacity };
                    assert forall|i: int|
                        self.frames@.len() - self.silence <= i < self.frames@.len() implies !#[trigger] self.frames@[i] by {
                        if i >= old(self).frames@.len() {
                            assert(self.frames@[i] == added[i - old(self).frames@.len()]);
                        } else {
                            assert(self.frames@[i] == old(self).frames@[i]);
                        }
                    }
                    RenderAction::Silence(free)
                },
            }
        }
    }
}

} // verus!
