//! Channel remapping: upmix replicates channels cyclically, downmix averages the input
//! channels that fold onto each output channel.
use vstd::prelude::*;

use crate::render::frames_for;
use crate::session::{ChannelCount, SampleRate};
use crate::source::{Sample, Source};

verus! {

/// Frame `f` of interleaved samples with `m` channels.
pub open spec fn frame_at(s: Seq<Sample>, m: nat, f: nat) -> Seq<Sample> {
    s.subrange((f * m) as int, (f * m + m) as int)
}

/// Sum of the samples of `fr` at `j`, `j + step`, `j + 2 * step`, ...
pub open spec fn strided_sum(fr: Seq<Sample>, j: nat, step: nat) -> int
    decreases if j >= fr.len() { 0 } else { fr.len() - j },
{
    if step == 0 || j >= fr.len() {
        0
    } else {
        fr[j as int] + strided_sum(fr, j + step, step)
    }
}

/// Number of indices `j`, `j + step`, `j + 2 * step`, ... inside `fr`.
pub open spec fn strided_count(len: nat, j: nat, step: nat) -> nat
    decreases if j >= len { 0 } else { len - j },
{
    if step == 0 || j >= len {
        0
    } else {
        1 + strided_count(len, j + step, step)
    }
}

/// Channel `c` of frame `fr` remapped to `n` channels: a copy of input channel `c mod m`
/// when upmixing, the average (rounded down) of input channels `c`, `c + n`, ... when
/// downmixing.
pub open spec fn remap_sample(fr: Seq<Sample>, n: nat, c: nat) -> int {
    if n >= fr.len() {
        fr[(c % fr.len()) as int] as int
    } else {
        strided_sum(fr, c, n) / (strided_count(fr.len(), c, n) as int)
    }
}

/// Interleaved frames of `m` channels remapped frame by frame to `n` channels.
pub open spec fn remap_seq(s: Seq<Sample>, m: nat, n: nat) -> Seq<Sample> {
    Seq::new(
        (s.len() / m * n) as nat,
        |i: int| remap_sample(frame_at(s, m, (i / n as int) as nat), n, (i % n as int) as nat) as Sample,
    )
}

/// Remapping whole frames one batch after another is remapping them all at once.
pub proof fn lemma_remap_concat(a: Seq<Sample>, b: Seq<Sample>, m: nat, n: nat)
    requires
        m > 0,
        n > 0,
        a.len() % m == 0,
    ensures
        remap_seq(a + b, m, n) == remap_seq(a, m, n) + remap_seq(b, m, n),
{
    let fa = a.len() / m;
    let fb = b.len() / m;
    vstd::arithmetic::div_mod::lemma_fundamental_div_mod(a.len() as int, m as int);
    vstd::arithmetic::div_mod::lemma_fundamental_div_mod(b.len() as int, m as int);
    let rb = b.len() % m;
    assert((a + b).len() == (fa + fb) * m + rb) by (nonlinear_arith)
        requires
            a.len() == m * fa,
            b.len() == m * fb + rb,
            (a + b).len() == a.len() + b.len(),
    ;
    vstd::arithmetic::div_mod::lemma_mod_bound(b.len() as int, m as int);
    vstd::arithmetic::div_mod::lemma_fundamental_div_mod_converse((a + b).len() as int, m as int, (fa + fb) as int, rb as int);
    let left = remap_seq(a + b, m, n);
    let right = remap_seq(a, m, n) + remap_seq(b, m, n);
    assert((fa + fb) * n == fa * n + fb * n) by (nonlinear_arith);
    assert forall|i: int| 0 <= i < left.len() implies left[i] == right[i] by {
        let f = i / n as int;
        let c = i % n as int;
        vstd::arithmetic::div_mod::lemma_fundamental_div_mod(i, n as int);
        vstd::arithmetic::div_mod::lemma_mod_bound(i, n as int);
        if i < fa * n {
            assert(f < fa) by (nonlinear_arith)
                requires
                    i == n * f + c,
                    0 <= c < n,
                    i < fa * n,
            ;
            assert((f + 1) * m <= a.len()) by (nonlinear_arith)
                requires
                    f < fa,
                    a.len() == m * fa,
            ;
            assert(f >= 0) by (nonlinear_arith)
                requires
                    i == n * f + c,
                    0 <= c < n,
                    i >= 0,
            ;
            assert(f * m + m == (f + 1) * m) by (nonlinear_arith);
            assert(frame_at(a + b, m, f as nat) =~= frame_at(a, m, f as nat));
        } else {
            let j = i - fa * n;
            let g = f - fa;
            assert(j == n * g + c) by (nonlinear_arith)
                requires
                    i == n * f + c,
                    j == i - fa * n,
                    g == f - fa,
            ;
            vstd::arithmetic::div_mod::lemma_fundamental_div_mod_converse(j, n as int, g, c);
            assert(g >= 0) by (nonlinear_arith)
                requires
                    j == n * g + c,
                    0 <= c < n,
                    j >= 0,
            ;
            assert(g < fb) by (nonlinear_arith)
                requires
                    j == n * g + c,
                    0 <= c < n,
                    j < fb * n,
            ;
            assert((g + 1) * m <= b.len()) by (nonlinear_arith)
                requires
                    g < fb,
                    b.len() == m * fb + rb,
                    rb >= 0,
            ;
            assert(f * m == a.len() + g * m) by (nonlinear_arith)
                requires
                    f == g + fa,
                    a.len() == m * fa,
            ;
            assert(g * m + m == (g + 1) * m) by (nonlinear_arith);
            assert(frame_at(a + b, m, f as nat) =~= frame_at(b, m, g as nat));
            assert(right[i] == remap_seq(b, m, n)[j]);
        }
    }
    assert(left =~= right);
}

/// Duplicating a mono signal to stereo and averaging it back to mono gives the signal back.
pub proof fn lemma_mono_stereo_round_trip(x: Seq<Sample>)
    ensures
        remap_seq(remap_seq(x, 1, 2), 2, 1) == x,
{
    let up = remap_seq(x, 1, 2);
    assert(x.len() / 1 * 2 == 2 * x.len());
    assert forall|i: int| 0 <= i < up.len() implies #[trigger] up[i] == x[i / 2] by {
        let fr = frame_at(x, 1, (i / 2) as nat);
        assert(fr.len() == 1);
        assert(fr[0] == x[i / 2]);
        assert((i % 2) % 1 == 0);
    }
    let down = remap_seq(up, 2, 1);
    assert(up.len() / 2 * 1 == x.len());
    assert forall|k: int| 0 <= k < down.len() implies #[trigger] down[k] == x[k] by {
        let fr = frame_at(up, 2, k as nat);
        assert(fr.len() == 2);
        assert(fr[0] == up[2 * k]);
        assert(fr[1] == up[2 * k + 1]);
        assert((2 * k) / 2 == k);
        assert((2 * k + 1) / 2 == k);
        assert(strided_sum(fr, 2, 1) == 0);
        assert(strided_sum(fr, 1, 1) == fr[1] as int);
        assert(strided_sum(fr, 0, 1) == fr[0] + fr[1]);
        assert(strided_count(2, 2, 1) == 0);
        assert(strided_count(2, 1, 1) == 1);
        assert(strided_count(2, 0, 1) == 2);
        assert((x[k] + x[k]) / 2 == x[k] as int);
    }
    assert(down =~= x);
}

proof fn lemma_strided_bounds(fr: Seq<Sample>, j: nat, step: nat)
    ensures
        -32768 * strided_count(fr.len(), j, step) <= strided_sum(fr, j, step)
            <= 32767 * strided_count(fr.len(), j, step),
    decreases if j >= fr.len() { 0 } else { fr.len() - j },
{
    if step != 0 && j < fr.len() {
        lemma_strided_bounds(fr, j + step, step);
    }
}

pub(crate) proof fn lemma_div_shift(a: int, k: int, c: int)
    requires
        c > 0,
    ensures
        (a + k * c) / c == a / c + k,
{
    let q = a / c;
    let r = a % c;
    vstd::arithmetic::div_mod::lemma_fundamental_div_mod(a, c);
    assert(a + k * c == (q + k) * c + r) by (nonlinear_arith)
        requires
            a == c * q + r,
    ;
    vstd::arithmetic::div_mod::lemma_fundamental_div_mod_converse(a + k * c, c, q + k, r);
}

pub(crate) proof fn lemma_div_bounds(s: int, cnt: int)
    requires
        cnt > 0,
        -32768 * cnt <= s <= 32767 * cnt,
    ensures
        -32768 <= s / cnt <= 32767,
{
    vstd::arithmetic::div_mod::lemma_div_is_ordered(-32768 * cnt, s, cnt);
    vstd::arithmetic::div_mod::lemma_div_is_ordered(s, 32767 * cnt, cnt);
    assert(-32768 * cnt == cnt * -32768) by (nonlinear_arith);
    assert(32767 * cnt == cnt * 32767) by (nonlinear_arith);
    vstd::arithmetic::div_mod::lemma_div_multiples_vanish(-32768, cnt);
    vstd::arithmetic::div_mod::lemma_div_multiples_vanish(32767, cnt);
}

/// Channel `c` of frame `f` of `input` remapped from `m` to `n` channels.
fn remap_one(input: &[Sample], f: usize, m: usize, n: usize, c: usize) -> (v: Sample)
    requires
        0 < m <= 65535,
        0 < n,
        c < n,
        (f + 1) * m <= input@.len(),
    ensures
        v as int == remap_sample(frame_at(input@, m as nat, f as nat), n as nat, c as nat),
{
    let ghost fr = frame_at(input@, m as nat, f as nat);
    let len = input.len();
    assert((f + 1) * m == f * m + m) by (nonlinear_arith);
    assert(f * m + m <= len);
    let base = f * m;
    assert(fr.len() == m);
    if n >= m {
        let v = input[base + c % m];
        assert(fr[(c % m) as int] == input@[base + c % m]);
        v
    } else {
        let mut acc: i64 = 0;
        let mut cnt: i64 = 0;
        let mut j: usize = c;
        proof {
            lemma_strided_bounds(fr, c as nat, n as nat);
        }
        while j < m
            invariant
                0 < n < m <= 65535,
                c < n,
                base + m <= input@.len(),
                fr == input@.subrange(base as int, base + m),
                acc + strided_sum(fr, j as nat, n as nat) == strided_sum(fr, c as nat, n as nat),
                cnt + strided_count(m as nat, j as nat, n as nat) == strided_count(m as nat, c as nat, n as nat),
                -32768 * cnt <= acc <= 32767 * cnt,
                0 <= cnt <= j,
                j <= m + n,
                len == input@.len(),
            decreases m + n - j,
        {
            let x = input[base + j];
            assert(fr[j as int] == x);
            acc = acc + x as i64;
            cnt = cnt + 1;
            j = j + n;
        }
        assert(strided_sum(fr, j as nat, n as nat) == 0);
        assert(strided_count(m as nat, j as nat, n as nat) == 0);
        assert(strided_count(m as nat, c as nat, n as nat) >= 1);
        proof {
            lemma_div_shift(acc as int, 32768, cnt as int);
            lemma_div_bounds(acc as int, cnt as int);
        }
        let shifted = acc + 32768 * cnt;
        let q = shifted / cnt;
        (q - 32768) as Sample
    }
}

/// Remaps interleaved frames of `in_channels` channels to `out_channels` channels, frame by
/// frame; a trailing partial frame is dropped.
pub fn remap(input: &[Sample], in_channels: ChannelCount, out_channels: ChannelCount) -> (r: Vec<Sample>)
    requires
        in_channels > 0,
        out_channels > 0,
        input@.len() / (in_channels as nat) * (out_channels as nat) <= usize::MAX,
    ensures
        r@ == remap_seq(input@, in_channels as nat, out_channels as nat),
{
    let m = in_channels as usize;
    let n = out_channels as usize;
    let frames = input.len() / m;
    let ghost want = remap_seq(input@, m as nat, n as nat);
    let mut out: Vec<Sample> = Vec::new();
    let mut f: usize = 0;
    proof {
        vstd::arithmetic::div_mod::lemma_fundamental_div_mod(input@.len() as int, m as int);
    }
    while f < frames
        invariant
            0 < m <= 65535,
            0 < n <= 65535,
            frames == input@.len() / (m as nat),
            frames * m <= input@.len(),
            frames * n <= usize::MAX,
            want == remap_seq(input@, m as nat, n as nat),
            f <= frames,
            out@.len() == f * n,
            forall|i: int| 0 <= i < f * n ==> out@[i] == want[i],
        decreases frames - f,
    {
        assert((f + 1) * m <= frames * m) by (nonlinear_arith)
            requires
                f < frames,
        ;
        assert((f + 1) * n <= frames * n) by (nonlinear_arith)
            requires
                f < frames,
        ;
        assert((f + 1) * n == f * n + n) by (nonlinear_arith);
        let mut c: usize = 0;
        while c < n
            invariant
                0 < m <= 65535,
                0 < n <= 65535,
                f < frames,
                (f + 1) * m <= input@.len(),
                (f + 1) * n <= frames * n,
                (f + 1) * n == f * n + n,
                frames * n <= usize::MAX,
                want == remap_seq(input@, m as nat, n as nat),
                want.len() == frames * n,
                c <= n,
                out@.len() == f * n + c,
                forall|i: int| 0 <= i < f * n + c ==> out@[i] == want[i],
            decreases n - c,
        {
            let v = remap_one(input, f, m, n, c);
            proof {
                let i = f * n + c;
                vstd::arithmetic::div_mod::lemma_fundamental_div_mod_converse(i as int, n as int, f as int, c as int);
                assert(want[i as int] == v);
            }
            out.push(v);
            c = c + 1;
        }
        f = f + 1;
    }
    assert(out@ =~= want);
    out
}

proof fn lemma_chunk_positive(want: int, n: int)
    requires
        want > 0,
        n > 0,
    ensures
        want / n >= 1 || want % n != 0,
{
    vstd::arithmetic::div_mod::lemma_fundamental_div_mod(want, n);
    if want / n < 1 && want % n == 0 {
        assert(want / n == 0) by {
            vstd::arithmetic::div_mod::lemma_div_pos_is_pos(want, n);
        }
        assert(n * (want / n) == 0);
    }
}

proof fn lemma_whole_frames_append(a: int, pull: int, m: int, frames: int)
    requires
        m > 0,
        frames >= 0,
        a >= 0,
        a % m == 0,
        pull == m * frames,
    ensures
        (a + pull) % m == 0,
        pull / m == frames,
{
    vstd::arithmetic::div_mod::lemma_fundamental_div_mod(a, m);
    let q = a / m;
    assert(a + pull == (q + frames) * m + 0) by (nonlinear_arith)
        requires
            a == m * q + 0,
            pull == m * frames,
    ;
    vstd::arithmetic::div_mod::lemma_fundamental_div_mod_converse(a + pull, m, q + frames, 0);
    assert(pull == frames * m + 0) by (nonlinear_arith)
        requires
            pull == m * frames,
    ;
    vstd::arithmetic::div_mod::lemma_fundamental_div_mod_converse(pull, m, frames, 0);
}

proof fn lemma_last_chunk(done: int, want: int, n: int, before: int, frames: int, whole: int)
    requires
        n > 0,
        want > 0,
        before >= 0,
        done == before * n,
        whole == want / n,
        frames * n >= want,
        frames <= 1024,
        frames == if whole >= 1024 { 1024 } else if want % n == 0 { whole } else { whole + 1 },
    ensures
        before + frames == frames_for((done + want) as nat, n as nat),
{
    vstd::arithmetic::div_mod::lemma_fundamental_div_mod(want, n);
    vstd::arithmetic::div_mod::lemma_mod_bound(want, n);
    let r = want % n;
    let c = if r == 0 { whole } else { whole + 1 };
    if whole >= 1024 {
        assert(whole * n <= want);
        assert(frames == whole) by (nonlinear_arith)
            requires
                frames == 1024,
                whole >= 1024,
                whole * n <= want,
                frames * n >= want,
                n > 0,
        {
            if whole > 1024 {
                assert(whole * n >= 1025 * n);
            }
        };
        assert(r == 0) by (nonlinear_arith)
            requires
                want == n * whole + r,
                frames == whole,
                frames * n >= want,
                0 <= r,
        ;
    }
    assert(frames == c);
    let total = done + want;
    let t = total + n - 1;
    if r == 0 {
        assert(t == (before + whole) * n + (n - 1)) by (nonlinear_arith)
            requires
                t == done + want + n - 1,
                done == before * n,
                want == n * whole + r,
                r == 0,
        ;
        vstd::arithmetic::div_mod::lemma_fundamental_div_mod_converse(t, n, before + whole, n - 1);
    } else {
        assert(t == (before + whole + 1) * n + (r - 1)) by (nonlinear_arith)
            requires
                t == done + want + n - 1,
                done == before * n,
                want == n * whole + r,
        ;
        vstd::arithmetic::div_mod::lemma_fundamental_div_mod_converse(t, n, before + whole + 1, r - 1);
    }
}

/// Most frames pulled from the inner source in one go.
pub const CHUNK_FRAMES: usize = 1024;

/// Adapts a source to another channel count at the same sample rate. Each frame asked of it
/// costs exactly one frame of the inner source.
pub struct Rechanneler<S: Source> {
    inner: S,
    channels: ChannelCount,
    ended: bool,
    pulled: Ghost<Seq<Sample>>,
}

impl<S: Source> Rechanneler<S> {
    pub closed spec fn inner(&self) -> S {
        self.inner
    }

    /// The whole frames taken from the inner source by the last call of `write_samples`
    /// (a partial frame it ended on is completed with zeros).
    pub closed spec fn last_pull(&self) -> Seq<Sample> {
        self.pulled@
    }

    /// Wraps `inner`, producing `channels` channels.
    pub fn new(inner: S, channels: ChannelCount) -> (r: Self)
        requires
            inner.wf(),
            channels > 0,
        ensures
            r.wf(),
            r.inner() == inner,
            r.channels() == channels,
            r.rate() == inner.rate(),
            !r.exhausted(),
    {
        Rechanneler { inner, channels, ended: false, pulled: Ghost(Seq::empty()) }
    }
}

impl<S: Source> Source for Rechanneler<S> {
    closed spec fn wf(&self) -> bool {
        &&& self.inner.wf()
        &&& self.channels > 0
        &&& self.ended ==> self.inner.exhausted()
    }

    closed spec fn channels(&self) -> u16 {
        self.channels
    }

    closed spec fn rate(&self) -> u32 {
        self.inner.rate()
    }

    closed spec fn exhausted(&self) -> bool {
        self.ended
    }

    fn channel_count(&self) -> (r: ChannelCount) {
        self.channels
    }

    fn sample_rate(&self) -> (r: SampleRate) {
        self.inner.sample_rate()
    }

    fn write_samples(&mut self, buffer: &mut [Sample]) -> (n: usize)
        ensures
            n < old(buffer)@.len() ==> final(self).inner().exhausted(),
            !old(self).exhausted() ==> final(self).last_pull().len() % (old(self).inner().channels() as nat) == 0,
            !old(self).exhausted() ==> n <= remap_seq(final(self).last_pull(), old(self).inner().channels() as nat, old(self).channels() as nat).len(),
            !old(self).exhausted() && n == old(buffer)@.len() ==> final(self).last_pull().len()
                == (old(self).inner().channels() as nat) * frames_for(n as nat, old(self).channels() as nat),
            !old(self).exhausted() ==> final(buffer)@.subrange(0, n as int) == remap_seq(
                final(self).last_pull(),
                old(self).inner().channels() as nat,
                old(self).channels() as nat,
            ).subrange(0, n as int),
    {
        if self.ended {
            return 0;
        }
        let m = self.inner.channel_count() as usize;
        let n = self.channels as usize;
        let len = buffer.len();
        let mut done: usize = 0;
        let mut short = false;
        self.pulled = Ghost(Seq::empty());
        let ghost mut asked: nat = 0;
        proof {
            vstd::arithmetic::div_mod::lemma_fundamental_div_mod_converse((n - 1) as int, n as int, 0, (n - 1) as int);
            vstd::arithmetic::div_mod::lemma_small_mod(0, m as nat);
        }
        while done < len && !short
            invariant
                self.pulled@.len() % (m as nat) == 0,
                self.pulled@.len() == (m as nat) * asked,
                (done < len && !short) ==> done == asked * n,
                done == len ==> asked == frames_for(len as nat, n as nat),
                done <= remap_seq(self.pulled@, m as nat, n as nat).len(),
                forall|j: int| 0 <= j < done ==> #[trigger] buffer@[j] == remap_seq(self.pulled@, m as nat, n as nat)[j],
                (done < len && !short) ==> done == remap_seq(self.pulled@, m as nat, n as nat).len(),
                self.inner.wf(),
                self.inner.channels() == m,
                self.inner.rate() == old(self).inner.rate(),
                self.channels == old(self).channels,
                self.channels == n,
                !self.ended,
                short ==> self.inner.exhausted(),
                0 < m <= 65535,
                0 < n <= 65535,
                done <= len,
                len == buffer@.len(),
            decreases len - done + if short { 0int } else { 1int },
        {
            let want = len - done;
            let whole = want / n;
            let frames_now = if whole >= CHUNK_FRAMES {
                CHUNK_FRAMES
            } else if want % n == 0 {
                whole
            } else {
                whole + 1
            };
            assert(frames_now * m <= 1024 * 65535) by (nonlinear_arith)
                requires
                    frames_now <= 1024,
                    m <= 65535,
            ;
            assert(frames_now * n <= 1024 * 65535) by (nonlinear_arith)
                requires
                    frames_now <= 1024,
                    n <= 65535,
            ;
            proof {
                lemma_chunk_positive(want as int, n as int);
            }
            let pull = frames_now * m;
            let mut scratch: Vec<Sample> = vec![0; pull];
            let k = self.inner.write_samples(scratch.as_mut_slice());
            let mut z: usize = k;
            while z < pull
                invariant
                    k <= z <= pull,
                    scratch@.len() == pull,
                decreases pull - z,
            {
                scratch.set(z, 0);
                z = z + 1;
            }
            assert(pull / m == frames_now) by (nonlinear_arith)
                requires
                    pull == frames_now * m,
                    m > 0,
            {
                vstd::arithmetic::div_mod::lemma_div_by_multiple(frames_now as int, m as int);
            };
            let mapped = remap(scratch.as_slice(), m as u16, n as u16);
            let ghost before = self.pulled@;
            proof {
                lemma_remap_concat(before, scratch@, m as nat, n as nat);
                self.pulled = Ghost(before + scratch@);
                assert(before.len() + pull == m * (asked + frames_now)) by (nonlinear_arith)
                    requires
                        before.len() == m * asked,
                        pull == frames_now * m,
                ;
                asked = (asked + frames_now) as nat;
                assert(pull as int == frames_now * m);
                assert(frames_now * m == m * frames_now) by (nonlinear_arith);
                lemma_whole_frames_append(before.len() as int, pull as int, m as int, frames_now as int);
            }
            let got = k / m + if k % m == 0 { 0 } else { 1 };
            assert(got <= frames_now) by (nonlinear_arith)
                requires
                    k <= frames_now * m,
                    m > 0,
                    got == k / m + if k % m == 0 { 0int } else { 1int },
            {
                vstd::arithmetic::div_mod::lemma_fundamental_div_mod(k as int, m as int);
            };
            assert(got * n <= frames_now * n) by (nonlinear_arith)
                requires
                    got <= frames_now,
            ;
            let produced = got * n;
            let copy = if produced < want { produced } else { want };
            let ghost whole_map = remap_seq(self.pulled@, m as nat, n as nat);
            assert(mapped@.len() == frames_now * n);
            assert(whole_map == remap_seq(before, m as nat, n as nat) + mapped@);
            let mut t: usize = 0;
            while t < copy
                invariant
                    whole_map == remap_seq(before, m as nat, n as nat) + mapped@,
                    done == remap_seq(before, m as nat, n as nat).len(),
                    forall|j: int| 0 <= j < done + t ==> #[trigger] buffer@[j] == whole_map[j],
                    t <= copy,
                    copy <= want,
                    want == len - done,
                    done + copy <= len,
                    copy <= produced,
                    produced <= mapped@.len(),
                    len == buffer@.len(),
                decreases copy - t,
            {
                buffer[done + t] = mapped[t];
                assert(whole_map[done + t] == mapped@[t as int]);
                t = t + 1;
            }
            if k < pull {
                short = true;
            } else {
                assert(got == frames_now) by (nonlinear_arith)
                    requires
                        k == frames_now * m,
                        m > 0,
                        got == k / m + if k % m == 0 { 0int } else { 1int },
                {
                    vstd::arithmetic::div_mod::lemma_fundamental_div_mod(k as int, m as int);
                    vstd::arithmetic::div_mod::lemma_div_by_multiple(frames_now as int, m as int);
                };
                assert(copy >= 1) by (nonlinear_arith)
                    requires
                        got == frames_now,
                        frames_now >= 1,
                        n >= 1,
                        produced == got * n,
                        want >= 1,
                        copy == if produced < want { produced } else { want },
                ;
            }
            proof {
                if copy == want {
                    lemma_last_chunk(done as int, want as int, n as int, (asked - frames_now) as int, frames_now as int, whole as int);
                }
                if copy < want && !short {
                    assert(copy == got * n);
                    assert(got == frames_now);
                    assert(done + copy == asked * n) by (nonlinear_arith)
                        requires
                            done == (asked - frames_now) * n,
                            copy == frames_now * n,
                            asked >= frames_now,
                    ;
                }
            }
            done = done + copy;
        }
        if done < len {
            self.ended = true;
        }
        assert(buffer@.subrange(0, done as int) =~= remap_seq(self.pulled@, m as nat, n as nat).subrange(0, done as int));
        done
    }
}

} // verus!
