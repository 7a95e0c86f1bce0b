//! Sample-rate conversion by linear interpolation with an exact fractional phase.
use vstd::prelude::*;

use crate::session::{ChannelCount, SampleRate};
use crate::rechanneler::{lemma_div_bounds, lemma_div_shift};
use crate::source::{Sample, Source};

verus! {

/// The value a fraction `frac / to` of the way from `a` to `b` takes, rounded down.
pub open spec fn lerp(a: int, b: int, frac: nat, to: nat) -> int
    recommends
        to > 0,
        frac < to,
{
    (a * (to - frac) + b * frac) / (to as int)
}

/// Interpolating between two equal values gives that value at every phase.
pub proof fn lemma_lerp_constant(c: int, frac: nat, to: nat)
    requires
        to > 0,
        frac < to,
    ensures
        lerp(c, c, frac, to) == c,
{
    assert(c * (to - frac) + c * frac == c * to) by (nonlinear_arith);
    assert(c * to == to * c) by (nonlinear_arith);
    vstd::arithmetic::div_mod::lemma_div_multiples_vanish(c, to as int);
}

proof fn lemma_lerp_bounds(a: int, b: int, frac: nat, to: nat)
    requires
        to > 0,
        frac < to,
        -32768 <= a <= 32767,
        -32768 <= b <= 32767,
    ensures
        -32768 <= lerp(a, b, frac, to) <= 32767,
{
    let t = to as int;
    let s = a * (t - frac) + b * frac;
    assert(-32768 * t <= s <= 32767 * t) by (nonlinear_arith)
        requires
            s == a * (t - frac) + b * frac,
            0 <= frac < t,
            -32768 <= a <= 32767,
            -32768 <= b <= 32767,
    ;
    lemma_div_bounds(s, t);
}

/// `a` moved a fraction `frac / to` of the way towards `b`, rounded down.
pub fn interpolate(a: Sample, b: Sample, frac: u32, to: u32) -> (r: Sample)
    requires
        to > 0,
        frac < to,
    ensures
        r as int == lerp(a as int, b as int, frac as nat, to as nat),
{
    proof {
        lemma_lerp_bounds(a as int, b as int, frac as nat, to as nat);
    }
    let t = to as i64;
    let f = frac as i64;
    assert(-32768 * t <= a as i64 * (t - f) + b as i64 * f <= 32767 * t) by (nonlinear_arith)
        requires
            0 <= f < t,
            t <= 4294967295,
            -32768 <= a <= 32767,
            -32768 <= b <= 32767,
    ;
    assert(32768 * t <= 32768 * 4294967295) by (nonlinear_arith)
        requires
            t <= 4294967295,
    ;
    assert(-32768 * 4294967295 <= a as i64 * (t - f) <= 32768 * 4294967295) by (nonlinear_arith)
        requires
            0 <= f < t,
            t <= 4294967295,
            -32768 <= a <= 32767,
    ;
    assert(-32768 * 4294967295 <= b as i64 * f <= 32768 * 4294967295) by (nonlinear_arith)
        requires
            0 <= f < t,
            t <= 4294967295,
            -32768 <= b <= 32767,
    ;
    let s = a as i64 * (t - f) + b as i64 * f;
    proof {
        lemma_div_shift(s as int, 32768, t as int);
    }
    let shifted = s + 32768 * t;
    ((shifted / t) - 32768) as Sample
}

/// The least number of output frames whose positions cover `n` input frames:
/// `ceil(n * to / from)`.
pub open spec fn frames_out(n: nat, from: nat, to: nat) -> nat
    recommends
        from > 0,
{
    ((n * to + from - 1) / (from as int)) as nat
}

/// Channel `c` of the output frame at input position `pos / to` over the input frames
/// `input`: the frame at the integer part, interpolated towards the following frame (or
/// held, past the last one) by the fractional part.
pub open spec fn sample_out(input: Seq<Seq<Sample>>, pos: nat, to: nat, c: int) -> int {
    let i = (pos / to) as int;
    let a = input[i][c] as int;
    let b = if i + 1 < input.len() { input[i + 1][c] as int } else { a };
    lerp(a, b, pos % to, to)
}

/// Resampling a constant signal gives that constant at every output position: when every
/// input frame holds `v` in channel `c`, so does every output frame.
pub proof fn lemma_constant_input(input: Seq<Seq<Sample>>, pos: nat, to: nat, c: int, v: Sample)
    requires
        to > 0,
        pos / to < input.len(),
        forall|i: int| 0 <= i < input.len() ==> (#[trigger] input[i])[c] == v,
    ensures
        sample_out(input, pos, to, c) == v as int,
{
    let i = (pos / to) as int;
    assert(input[i][c] == v);
    if i + 1 < input.len() {
        assert(input[i + 1][c] == v);
    }
    lemma_lerp_constant(v as int, pos % to, to);
}

proof fn lemma_sample_out_stable(a: Seq<Seq<Sample>>, b: Seq<Seq<Sample>>, pos: nat, to: nat, c: int)
    requires
        to > 0,
        a.len() <= b.len(),
        b.subrange(0, a.len() as int) == a,
        pos / to < a.len(),
        pos / to + 1 < a.len() || a == b,
    ensures
        sample_out(a, pos, to, c) == sample_out(b, pos, to, c),
{
    let i = (pos / to) as int;
    assert(a[i] == b.subrange(0, a.len() as int)[i]);
    if i + 1 < a.len() {
        assert(a[i + 1] == b.subrange(0, a.len() as int)[i + 1]);
    }
}

/// Pulls one whole frame of `m` samples from `inner`; `None` once it has no whole frame left.
fn pull_frame<S: Source>(inner: &mut S, m: usize) -> (r: Option<Vec<Sample>>)
    requires
        old(inner).wf(),
    ensures
        final(inner).wf(),
        final(inner).channels() == old(inner).channels(),
        final(inner).rate() == old(inner).rate(),
        r is Some ==> r->Some_0@.len() == m,
        r is None ==> final(inner).exhausted(),
{
    let mut frame: Vec<Sample> = vec![0; m];
    assert(frame@.len() == m);
    let k = inner.write_samples(frame.as_mut_slice());
    if k == m {
        Some(frame)
    } else {
        None
    }
}

/// Adapts a source to another sample rate at the same channel count. Output frame `k` sits
/// at input position `k * from / to` and interpolates linearly between the two input frames
/// around it; the fractional part of the position carries over from call to call exactly.
pub struct Resampler<S: Source> {
    inner: S,
    channels: ChannelCount,
    from: SampleRate,
    to: SampleRate,
    prev: Vec<Sample>,
    live: bool,
    next: Vec<Sample>,
    has_next: bool,
    inner_done: bool,
    frac: u32,
    taken: Ghost<nat>,
    index: Ghost<nat>,
    emitted: Ghost<nat>,
    input: Ghost<Seq<Seq<Sample>>>,
}

impl<S: Source> Resampler<S> {
    pub closed spec fn inner(&self) -> S {
        self.inner
    }

    /// Input frames pulled from the inner source so far.
    pub closed spec fn input_frames(&self) -> nat {
        self.taken@
    }

    /// Output frames produced so far.
    pub closed spec fn output_frames(&self) -> nat {
        self.emitted@
    }

    /// The whole frames pulled from the inner source so far, in order.
    pub closed spec fn input(&self) -> Seq<Seq<Sample>> {
        self.input@
    }

    /// The inner source's sample rate.
    pub closed spec fn from_rate(&self) -> nat {
        self.from as nat
    }

    /// Wraps `inner`, producing `sample_rate` frames per second.
    pub fn new(inner: S, sample_rate: SampleRate) -> (r: Self)
        requires
            inner.wf(),
            sample_rate > 0,
        ensures
            r.wf(),
            r.channels() == inner.channels(),
            r.rate() == sample_rate,
            r.from_rate() == inner.rate(),
            r.output_frames() == 0,
    {
        let mut inner = inner;
        let channels = inner.channel_count();
        let from = inner.sample_rate();
        let m = channels as usize;
        let first = pull_frame(&mut inner, m);
        match first {
            None => Resampler {
                inner,
                channels,
                from,
                to: sample_rate,
                prev: Vec::new(),
                live: false,
                next: Vec::new(),
                has_next: false,
                inner_done: true,
                frac: 0,
                taken: Ghost(0),
                index: Ghost(0),
                emitted: Ghost(0),
                input: Ghost(Seq::empty()),
            },
            Some(first) => {
                let ghost first_view = first@;
                let second = pull_frame(&mut inner, m);
                match second {
                None => Resampler {
                    inner,
                    channels,
                    from,
                    to: sample_rate,
                    prev: first,
                    live: true,
                    next: Vec::new(),
                    has_next: false,
                    inner_done: true,
                    frac: 0,
                    taken: Ghost(1),
                    index: Ghost(0),
                    emitted: Ghost(0),
                    input: Ghost(Seq::empty().push(first_view)),
                },
                Some(second) => Resampler {
                    inner,
                    channels,
                    from,
                    to: sample_rate,
                    prev: first,
                    live: true,
                    next: second,
                    has_next: true,
                    inner_done: false,
                    frac: 0,
                    taken: Ghost(2),
                    index: Ghost(0),
                    emitted: Ghost(0),
                    input: Ghost(Seq::empty().push(first_view).push(second@)),
                },
                }
            },
        }
    }

    /// Once the resampler has ended, it has produced exactly `ceil(n * to / from)` frames
    /// from the `n` whole frames of its inner source.
    pub proof fn lemma_output_length(&self)
        requires
            self.wf(),
            self.exhausted(),
        ensures
            self.output_frames() == frames_out(self.input_frames(), self.from_rate(), self.rate() as nat),
    {
        let e = self.emitted@ as int;
        let f = self.from as int;
        let x = self.taken@ * self.to as int;
        assert(x >= 0) by (nonlinear_arith)
            requires
                x == self.taken@ * self.to as int,
        ;
        // e * f >= x and (e == 0 or (e - 1) * f < x): e is the ceiling of x / f.
        assert(e * f >= x);
        assert(e == 0 || (e - 1) * f < x);
        if e == 0 {
            assert(x <= 0) by (nonlinear_arith)
                requires
                    e * f >= x,
                    e == 0,
            ;
            vstd::arithmetic::div_mod::lemma_fundamental_div_mod_converse(x + f - 1, f, 0, f - 1);
        } else {
            let r = e * f - x;
            assert(0 <= r < f) by (nonlinear_arith)
                requires
                    r == e * f - x,
                    e * f >= x,
                    (e - 1) * f < x,
            ;
            vstd::arithmetic::div_mod::lemma_fundamental_div_mod_converse(x + f - 1, f, e, f - 1 - r);
        }
    }

    /// Moves the phase on by one output frame, stepping over every input frame it passes.
    fn advance(&mut self)
        requires
            old(self).wf(),
            old(self).live,
        ensures
            final(self).wf(),
            final(self).channels == old(self).channels,
            final(self).to == old(self).to,
            final(self).from == old(self).from,
            final(self).emitted@ == old(self).emitted@ + 1,
            final(self).index@ >= old(self).index@,
            final(self).input@.len() >= old(self).input@.len(),
            final(self).input@.subrange(0, old(self).input@.len() as int) == old(self).input@,
            old(self).inner_done ==> final(self).input@ == old(self).input@,
    {
        let m = self.channels as usize;
        let to = self.to as u64;
        let mut acc: u64 = self.frac as u64 + self.from as u64;
        self.emitted = Ghost(self.emitted@ + 1);
        assert(self.input@.subrange(0, self.input@.len() as int) =~= self.input@);
        proof {
            assert(self.emitted@ * self.from == (self.emitted@ - 1) * self.from + self.from) by (nonlinear_arith);
            assert((self.emitted@ - 1) * self.from < self.taken@ * self.to) by (nonlinear_arith)
                requires
                    (self.emitted@ - 1) * self.from == self.index@ * self.to + self.frac,
                    self.frac < self.to,
                    self.index@ + 1 <= self.taken@,
            {
                assert(self.index@ * self.to + self.to == (self.index@ + 1) * self.to);
                assert((self.index@ + 1) * self.to <= self.taken@ * self.to);
            };
        }
        while acc >= to && self.live
            invariant
                self.inner.wf(),
                self.inner.channels() == self.channels,
                self.inner.rate() == self.from,
                self.channels == old(self).channels,
                self.from == old(self).from,
                self.to == old(self).to,
                self.from > 0,
                self.to > 0,
                self.channels > 0,
                to == self.to,
                m == self.channels,
                self.emitted@ == old(self).emitted@ + 1,
                acc <= 2 * 4294967295u64,
                self.frac < self.to,
                self.live ==> self.prev@.len() == m,
                self.has_next ==> self.next@.len() == m && self.live,
                self.has_next ==> self.taken@ == self.index@ + 2,
                self.live && !self.has_next ==> self.inner_done && self.taken@ == self.index@ + 1,
                self.live ==> self.emitted@ * self.from == self.index@ * self.to + acc,
                self.emitted@ == 0 || (self.emitted@ - 1) * self.from < self.taken@ * self.to,
                !self.live ==> self.inner_done && self.emitted@ * self.from >= self.taken@ * self.to,
                self.inner_done ==> self.inner.exhausted(),
                self.input@.len() == self.taken@,
                self.live ==> self.index@ < self.taken@ && self.prev@ == self.input@[self.index@ as int],
                self.has_next ==> self.next@ == self.input@[self.index@ + 1int],
                self.input@.len() >= old(self).input@.len(),
                self.input@.subrange(0, old(self).input@.len() as int) == old(self).input@,
                old(self).inner_done ==> self.input@ == old(self).input@ && self.inner_done,
                self.index@ >= old(self).index@,
            decreases acc,
        {
            acc = acc - to;
            proof {
                self.index = Ghost(self.index@ + 1);
                assert((self.index@ - 1) * self.to + self.to == self.index@ * self.to) by (nonlinear_arith);
            }
            if self.has_next {
                std::mem::swap(&mut self.prev, &mut self.next);
                if self.inner_done {
                    self.has_next = false;
                } else {
                    let pulled = pull_frame(&mut self.inner, m);
                    match pulled {
                        Some(frame) => {
                            let ghost grown = self.input@.push(frame@);
                            assert(grown.subrange(0, old(self).input@.len() as int)
                                =~= self.input@.subrange(0, old(self).input@.len() as int));
                            self.input = Ghost(grown);
                            self.next = frame;
                            self.taken = Ghost(self.taken@ + 1);
                            assert((self.emitted@ - 1) * self.from < self.taken@ * self.to) by (nonlinear_arith)
                                requires
                                    (self.emitted@ - 1) * self.from < (self.taken@ - 1) * self.to,
                                    self.to > 0,
                            ;
                        },
                        None => {
                            self.inner_done = true;
                            self.has_next = false;
                        },
                    }
                }
            } else {
                self.live = false;
                assert(self.index@ == self.taken@);
                assert(self.emitted@ * self.from >= self.taken@ * self.to);
            }
        }
        if self.live {
            self.frac = acc as u32;
        }
    }
}

impl<S: Source> Source for Resampler<S> {
    closed spec fn wf(&self) -> bool {
        &&& self.inner.wf()
        &&& self.inner.channels() == self.channels
        &&& self.inner.rate() == self.from
        &&& self.channels > 0
        &&& self.from > 0
        &&& self.to > 0
        &&& self.frac < self.to
        &&& self.live ==> self.prev@.len() == self.channels
        &&& self.has_next ==> self.next@.len() == self.channels && self.live
        &&& self.has_next ==> self.taken@ == self.index@ + 2
        &&& self.live && !self.has_next ==> self.inner_done && self.taken@ == self.index@ + 1
        &&& self.live ==> self.emitted@ * self.from == self.index@ * self.to + self.frac
        &&& self.emitted@ == 0 || (self.emitted@ - 1) * self.from < self.taken@ * self.to
        &&& !self.live ==> self.inner_done && self.emitted@ * self.from >= self.taken@ * self.to
        &&& self.inner_done ==> self.inner.exhausted()
        &&& self.input@.len() == self.taken@
        &&& self.live ==> self.index@ < self.taken@ && self.prev@ == self.input@[self.index@ as int]
        &&& self.has_next ==> self.next@ == self.input@[self.index@ + 1int]
    }

    closed spec fn channels(&self) -> u16 {
        self.channels
    }

    closed spec fn rate(&self) -> u32 {
        self.to
    }

    closed spec fn exhausted(&self) -> bool {
        !self.live
    }

    fn channel_count(&self) -> (r: ChannelCount) {
        self.channels
    }

    fn sample_rate(&self) -> (r: SampleRate) {
        self.to
    }

    fn write_samples(&mut self, buffer: &mut [Sample]) -> (n: usize)
        ensures
            n < old(buffer)@.len() ==> final(self).inner().exhausted(),
            forall|j: int|
                0 <= j < n ==> #[trigger] final(buffer)@[j] as int == sample_out(
                    final(self).input(),
                    ((old(self).output_frames() + j / (old(self).channels() as int)) * old(self).from_rate()) as nat,
                    old(self).rate() as nat,
                    j % (old(self).channels() as int),
                ),
    {
        if !self.live {
            return 0;
        }
        let m = self.channels as usize;
        let len = buffer.len();
        let mut w: usize = 0;
        let ghost e0 = self.emitted@;
        let ghost from = self.from as nat;
        let ghost to = self.to as nat;
        assert(w == (self.emitted@ - e0) * m) by (nonlinear_arith)
            requires
                w == 0,
                self.emitted@ == e0,
        ;
        while w < len && self.live
            invariant
                self.wf(),
                self.channels == old(self).channels,
                self.to == old(self).to,
                self.from == old(self).from,
                from == self.from,
                to == self.to,
                m == self.channels,
                w <= len,
                len == buffer@.len(),
                self.emitted@ >= e0,
                e0 == old(self).emitted@,
                w <= (self.emitted@ - e0) * m,
                (w < len && self.live) ==> w == (self.emitted@ - e0) * m,
                forall|j: int|
                    0 <= j < w ==> #[trigger] buffer@[j] as int == sample_out(
                        self.input@,
                        ((e0 + j / (m as int)) * from) as nat,
                        to,
                        j % (m as int),
                    ),
                forall|j: int| 0 <= j < w ==> ((e0 + #[trigger] (j / (m as int))) * from) / (to as int) <= self.index@,
            decreases len - w,
        {
            let ghost e = self.emitted@;
            let ghost pos = (e * from) as nat;
            proof {
                assert(e * from == self.index@ * to + self.frac);
                vstd::arithmetic::div_mod::lemma_fundamental_div_mod_converse(
                    (e * from) as int,
                    to as int,
                    self.index@ as int,
                    self.frac as int,
                );
                assert(e * from >= 0) by (nonlinear_arith)
                    requires
                        e >= 0,
                        from >= 0,
                ;
            }
            let rest = len - w;
            let take = if m < rest { m } else { rest };
            let mut c: usize = 0;
            while c < take
                invariant
                    self.wf(),
                    self.live,
                    m == self.channels,
                    take <= m,
                    w + take <= len,
                    len == buffer@.len(),
                    self.emitted@ == e,
                    pos == e * from,
                    from == self.from,
                    to == self.to,
                    pos / to == self.index@,
                    pos % to == self.frac,
                    forall|j: int|
                        0 <= j < w ==> #[trigger] buffer@[j] as int == sample_out(
                            self.input@,
                            ((e0 + j / (m as int)) * from) as nat,
                            to,
                            j % (m as int),
                        ),
                    forall|t: int| 0 <= t < c ==> #[trigger] buffer@[w + t] as int == sample_out(self.input@, pos, to, t),
                decreases take - c,
            {
                let a = self.prev[c];
                let b = if self.has_next { self.next[c] } else { a };
                buffer[w + c] = interpolate(a, b, self.frac, self.to);
                c = c + 1;
            }
            proof {
                assert forall|j: int| 0 <= j < w + take implies #[trigger] buffer@[j] as int == sample_out(
                    self.input@,
                    ((e0 + j / (m as int)) * from) as nat,
                    to,
                    j % (m as int),
                ) && ((e0 + j / (m as int)) * from) / (to as int) <= self.index@ by {
                    if j >= w {
                        let t = j - w;
                        assert(j == (e - e0) * m + t);
                        vstd::arithmetic::div_mod::lemma_fundamental_div_mod_converse(j, m as int, e - e0, t);
                        assert(buffer@[w + t] as int == sample_out(self.input@, pos, to, t));
                    } else {
                        assert(j / (m as int) < e - e0) by {
                            vstd::arithmetic::div_mod::lemma_fundamental_div_mod(j, m as int);
                            vstd::arithmetic::div_mod::lemma_mod_bound(j, m as int);
                            assert(j < (e - e0) * m);
                            assert((m as int) * (j / (m as int)) < (e - e0) * m);
                            assert(j / (m as int) < e - e0) by (nonlinear_arith)
                                requires
                                    (m as int) * (j / (m as int)) < (e - e0) * m,
                                    m > 0,
                            ;
                        }
                    }
                    vstd::arithmetic::div_mod::lemma_div_pos_is_pos(j, m as int);
                    assert((e0 + j / (m as int)) * from <= e * from) by (nonlinear_arith)
                        requires
                            j / (m as int) <= e - e0,
                            from >= 0,
                    ;
                    assert((e0 + j / (m as int)) * from >= 0) by (nonlinear_arith)
                        requires
                            j / (m as int) >= 0,
                            e0 >= 0,
                            from >= 0,
                    ;
                    vstd::arithmetic::div_mod::lemma_div_is_ordered(
                        (e0 + j / (m as int)) * from,
                        (e * from) as int,
                        to as int,
                    );
                }
            }
            let ghost before_input = self.input@;
            let ghost before_index = self.index@;
            let ghost had_next = self.has_next;
            w = w + take;
            self.advance();
            proof {
                assert forall|j: int| 0 <= j < w implies #[trigger] buffer@[j] as int == sample_out(
                    self.input@,
                    ((e0 + j / (m as int)) * from) as nat,
                    to,
                    j % (m as int),
                ) by {
                    let bj = buffer@[j];
                    let pi = (e0 + j / (m as int)) * from;
                    assert(pi / (to as int) <= before_index);
                    vstd::arithmetic::div_mod::lemma_div_pos_is_pos(j, m as int);
                    assert(pi >= 0) by (nonlinear_arith)
                        requires
                            pi == (e0 + j / (m as int)) * from,
                            j / (m as int) >= 0,
                            e0 >= 0,
                            from >= 0,
                    ;
                    let pj = pi as nat;
                    assert(pj / to <= before_index);
                    if !(pj / to + 1 < before_input.len()) {
                        assert(!had_next);
                    }
                    lemma_sample_out_stable(before_input, self.input@, pj, to, j % (m as int));
                }
                assert forall|j: int| 0 <= j < w implies ((e0 + #[trigger] (j / (m as int))) * from) / (to as int)
                    <= self.index@ by {
                    let bj = buffer@[j];
                }
                assert(w <= (self.emitted@ - e0) * m) by (nonlinear_arith)
                    requires
                        w <= (e - e0) * m + m,
                        self.emitted@ == e + 1,
                ;
                if w < len && self.live {
                    assert(take == m);
                    assert(w == (self.emitted@ - e0) * m) by (nonlinear_arith)
                        requires
                            w == (e - e0) * m + m,
                            self.emitted@ == e + 1,
                    ;
                }
            }
        }
        w
    }
}

} // verus!
