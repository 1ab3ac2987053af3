//! Conversion of captured frames: downmixing and resampling.
//!
//! What becomes of single samples is handed in: `mix` makes one sample of a frame, `position` says
//! between which source samples an output sample lies, and `lerp` blends those two.
use vstd::prelude::*;
use vstd::slice::{slice_subrange, slice_to_vec};

use crate::audio::{differs, AudioChunk, StreamPlan};

verus! {

/// The number of frames of `channels` samples that `len` samples make, a last short one counted.
pub open spec fn frame_count(len: nat, channels: nat) -> nat
    recommends
        channels > 0,
{
    ((len + channels - 1) / channels as int) as nat
}

/// The smaller of two numbers.
pub open spec fn smaller(a: int, b: int) -> int {
    if a < b {
        a
    } else {
        b
    }
}

/// The frame with number `i`; the last one may be short.
pub open spec fn frame<S>(data: Seq<S>, channels: nat, i: int) -> Seq<S> {
    data.subrange(
        smaller(i * channels, data.len() as int),
        smaller((i + 1) * channels, data.len() as int),
    )
}

/// Whether `mix` may make `sample` of the frame.
pub open spec fn mixed<S, M: Fn(&[S]) -> S>(frame: Seq<S>, mix: M, sample: S) -> bool {
    exists|f: &[S]| #[trigger] call_ensures(mix, (f,), sample) && f@ == frame
}

/// Whether `mix` may make `out` of the interleaved `data`, one sample of each frame.
pub open spec fn downmixed<S, M: Fn(&[S]) -> S>(
    data: Seq<S>,
    channels: nat,
    mix: M,
    out: Seq<S>,
) -> bool {
    &&& out.len() == frame_count(data.len(), channels)
    &&& forall|i: int|
        0 <= i < out.len() ==> mixed(frame(data, channels, i), mix, #[trigger] out[i])
}

/// Whether `mix` can be called on every frame of up to `channels` samples.
pub open spec fn mixes<S, M: Fn(&[S]) -> S>(mix: M, channels: nat) -> bool {
    forall|f: &[S]| 0 < f@.len() <= channels ==> #[trigger] call_requires(mix, (f,))
}

proof fn lemma_frame_bounds(len: int, channels: int, i: int)
    requires
        channels > 0,
        len >= 0,
        i >= 0,
        i * channels < len,
    ensures
        i < (len + channels - 1) / channels,
        (i + 1) * channels == i * channels + channels,
{
    assert((i + 1) * channels == i * channels + channels) by (nonlinear_arith);
    assert(i + 1 <= (len + channels - 1) / channels) by (nonlinear_arith)
        requires
            channels > 0,
            (i + 1) * channels <= len + channels - 1,
    ;
}

proof fn lemma_frame_end(len: int, channels: int, i: int)
    requires
        channels > 0,
        len >= 0,
        i >= 0,
        i * channels >= len,
        i > 0 ==> (i - 1) * channels < len,
    ensures
        i == (len + channels - 1) / channels,
{
    if i == 0 {
        assert((len + channels - 1) / channels == 0) by (nonlinear_arith)
            requires
                channels > 0,
                len == 0,
        ;
    } else {
        assert((i - 1) * channels == i * channels - channels) by (nonlinear_arith);
        assert(i == (len + channels - 1) / channels) by (nonlinear_arith)
            requires
                channels > 0,
                i * channels >= len,
                i * channels - channels < len,
        ;
    }
}

/// Makes one sample of every frame.
pub fn downmix<S: Copy, M: Fn(&[S]) -> S>(data: &[S], channels: usize, mix: &M) -> (r: Vec<S>)
    requires
        channels > 0,
        mixes(*mix, channels as nat),
    ensures
        downmixed(data@, channels as nat, *mix, r@),
{
    let n: usize = data.len();
    let mut r: Vec<S> = Vec::new();
    let mut at: usize = 0;
    while at < n
        invariant
            n == data@.len(),
            channels > 0,
            mixes(*mix, channels as nat),
            at == smaller(r@.len() * channels, n as int),
            r@.len() > 0 ==> (r@.len() - 1) * channels < n,
            forall|i: int|
                0 <= i < r@.len() ==> mixed(frame(data@, channels as nat, i), *mix, #[trigger] r@[i]),
        decreases n - at,
    {
        let ghost i = r@.len() as int;
        proof {
            lemma_frame_bounds(n as int, channels as int, i);
        }
        let end: usize = if n - at < channels {
            n
        } else {
            at + channels
        };
        let f = slice_subrange(data, at, end);
        assert(f@ == frame(data@, channels as nat, i));
        let sample = mix(f);
        assert(mixed(frame(data@, channels as nat, i), *mix, sample));
        r.push(sample);
        at = end;
    }
    proof {
        if r@.len() == 0 {
            assert(0 * channels == 0);
        }
        lemma_frame_end(n as int, channels as int, r@.len() as int);
    }
    r
}

/// Downmixing hears every sample once: the sample at place `k` stands in one frame, at the place of
/// its channel, and no frame holds more than its channels.
pub proof fn every_sample_is_in_one_frame<S>(data: Seq<S>, channels: nat, k: int, i: int)
    requires
        channels > 0,
        0 <= k < data.len(),
        0 <= i < frame_count(data.len(), channels),
    ensures
        (k / channels as int) < frame_count(data.len(), channels),
        frame(data, channels, k / channels as int)[k % channels as int] == data[k],
        frame(data, channels, i).len() <= channels,
        i == k / channels as int <==> i * channels <= k < (i + 1) * channels,
{
    let c = channels as int;
    let at = k / c;
    vstd::arithmetic::div_mod::lemma_fundamental_div_mod(k, c);
    assert(0 <= k % c < c);
    assert(0 <= at) by (nonlinear_arith)
        requires
            at == k / c,
            0 <= k,
            c > 0,
    ;
    assert(at * c == c * at) by (nonlinear_arith);
    lemma_frame_bounds(data.len() as int, c, at);
    assert((i + 1) * c == i * c + c) by (nonlinear_arith);
    assert(0 <= i * c) by (nonlinear_arith)
        requires
            0 <= i,
            0 < c,
    ;
    if i * c <= k < (i + 1) * c {
        assert(i == at) by (nonlinear_arith)
            requires
                c > 0,
                i * c <= k,
                k < i * c + c,
                at * c <= k,
                k < at * c + c,
        ;
    }
}

/// The sample at place `i`, or the last one where `i` lies past it.
pub open spec fn sample_at<S>(mono: Seq<S>, i: int) -> S {
    mono[smaller(i, mono.len() - 1)]
}

/// Whether the handed-in functions may make `sample` the output sample with number `i`.
pub open spec fn blended<S, T, P: Fn(usize) -> (usize, T), L: Fn(S, S, T) -> S>(
    mono: Seq<S>,
    position: P,
    lerp: L,
    i: usize,
    sample: S,
) -> bool {
    exists|p: (usize, T)|
        {
            &&& #[trigger] call_ensures(position, (i,), p)
            &&& call_ensures(
                lerp,
                (sample_at(mono, p.0 as int), sample_at(mono, p.0 + 1), p.1),
                sample,
            )
        }
}

/// Whether the handed-in functions may make `out` of `mono`: every output sample is a blend of
/// the source samples on both sides of its position, the last one standing for what lies past it.
pub open spec fn resampled<S, T, P: Fn(usize) -> (usize, T), L: Fn(S, S, T) -> S>(
    mono: Seq<S>,
    position: P,
    lerp: L,
    out: Seq<S>,
) -> bool {
    forall|i: int|
        0 <= i < out.len() ==> blended(mono, position, lerp, i as usize, #[trigger] out[i])
}

/// Resamples to `out_len` samples by linear interpolation.
pub fn resample<S: Copy, T, P: Fn(usize) -> (usize, T), L: Fn(S, S, T) -> S>(
    mono: &[S],
    out_len: usize,
    position: &P,
    lerp: &L,
) -> (r: Vec<S>)
    requires
        out_len > 0 ==> mono@.len() > 0,
        forall|i: usize| i < out_len ==> #[trigger] call_requires(*position, (i,)),
        forall|a: S, b: S, t: T| #[trigger] call_requires(*lerp, (a, b, t)),
    ensures
        r@.len() == out_len,
        resampled(mono@, *position, *lerp, r@),
{
    let n: usize = mono.len();
    let mut r: Vec<S> = Vec::new();
    let mut i: usize = 0;
    while i < out_len
        invariant
            n == mono@.len(),
            out_len > 0 ==> n > 0,
            i <= out_len,
            r@.len() == i,
            forall|i: usize| i < out_len ==> #[trigger] call_requires(*position, (i,)),
            forall|a: S, b: S, t: T| #[trigger] call_requires(*lerp, (a, b, t)),
            resampled(mono@, *position, *lerp, r@),
        decreases out_len - i,
    {
        let p = position(i);
        let ghost q = p;
        let at: usize = p.0;
        let a = mono[if at < n { at } else { n - 1 }];
        let b = mono[if at < n - 1 { at + 1 } else { n - 1 }];
        let sample = lerp(a, b, p.1);
        assert(a == sample_at(mono@, q.0 as int) && b == sample_at(mono@, q.0 + 1));
        assert(call_ensures(*position, (i,), q));
        assert(blended(mono@, *position, *lerp, i, sample));
        r.push(sample);
        i += 1;
    }
    r
}

/// Whether `mono` may be the single channel of what a stream of this plan delivers.
pub open spec fn single_channel<S, M: Fn(&[S]) -> S>(
    plan: StreamPlan,
    data: Seq<S>,
    mix: M,
    mono: Seq<S>,
) -> bool {
    if plan.channels > 1 {
        downmixed(data, plan.channels as nat, mix, mono)
    } else {
        mono == data
    }
}

/// Whether `out` may be what a stream of this plan makes of `data`: frames of more than one channel
/// become one sample each, and another sample rate is resampled to the wanted one.
pub open spec fn converted<
    S,
    T,
    M: Fn(&[S]) -> S,
    N: Fn(usize) -> usize,
    P: Fn(usize) -> (usize, T),
    L: Fn(S, S, T) -> S,
>(
    plan: StreamPlan,
    data: Seq<S>,
    sample_rate: u32,
    mix: M,
    resampled_len: N,
    position: P,
    lerp: L,
    out: Seq<S>,
) -> bool {
    exists|mono: Seq<S>|
        {
            &&& #[trigger] single_channel(plan, data, mix, mono)
            &&& if plan.sample_rate != sample_rate {
                &&& call_ensures(resampled_len, (mono.len() as usize,), out.len() as usize)
                &&& resampled(mono, position, lerp, out)
            } else {
                out == mono
            }
        }
}

/// Makes the chunk to send of what the device delivered. The chunk is mono, whatever was opened: it
/// has one sample for each frame, or as many as resampling makes of those. It always carries the
/// configured sample rate and number of channels.
///
/// `resampled_len` says how many samples a run of source samples becomes; of none it makes none.
pub fn captured_chunk<
    S: Copy,
    T,
    M: Fn(&[S]) -> S,
    N: Fn(usize) -> usize,
    P: Fn(usize) -> (usize, T),
    L: Fn(S, S, T) -> S,
>(
    plan: &StreamPlan,
    data: &[S],
    sample_rate: u32,
    channels: u16,
    mix: &M,
    resampled_len: &N,
    position: &P,
    lerp: &L,
) -> (r: AudioChunk<S>)
    requires
        mixes(*mix, plan.channels as nat),
        forall|n: usize| #[trigger] call_requires(*resampled_len, (n,)),
        forall|k: usize| #[trigger] call_ensures(*resampled_len, (0usize,), k) ==> k == 0,
        forall|i: usize| #[trigger] call_requires(*position, (i,)),
        forall|a: S, b: S, t: T| #[trigger] call_requires(*lerp, (a, b, t)),
    ensures
        converted(
            *plan,
            data@,
            sample_rate,
            *mix,
            *resampled_len,
            *position,
            *lerp,
            r.samples@,
        ),
        plan.channels >= 1 && plan.sample_rate == sample_rate ==> r.samples@.len() == frame_count(
            data@.len(),
            plan.channels as nat,
        ),
        plan.channels >= 1 && plan.sample_rate != sample_rate ==> call_ensures(
            *resampled_len,
            (frame_count(data@.len(), plan.channels as nat) as usize,),
            r.samples@.len() as usize,
        ),
        !differs(plan.sample_rate, plan.channels, sample_rate) ==> r.samples@ == data@,
        r.sample_rate == sample_rate,
        r.channels == channels,
{
    let mono: Vec<S> = if plan.channels > 1 {
        downmix(data, plan.channels as usize, mix)
    } else {
        slice_to_vec(data)
    };
    assert(single_channel(*plan, data@, *mix, mono@));
    if plan.sample_rate != sample_rate {
        let out_len: usize = resampled_len(mono.len());
        let samples = resample(mono.as_slice(), out_len, position, lerp);
        AudioChunk { samples, sample_rate, channels }
    } else {
        AudioChunk { samples: mono, sample_rate, channels }
    }
}

/// There are as many frames as the samples need, and no more.
pub proof fn frames_cover_the_samples(len: nat, channels: nat)
    requires
        channels > 0,
    ensures
        frame_count(len, channels) * channels >= len,
        len > 0 ==> (frame_count(len, channels) - 1) * channels < len,
        len == 0 ==> frame_count(len, channels) == 0,
{
    let n = len + channels - 1;
    let c = channels as int;
    let q = n / c;
    vstd::arithmetic::div_mod::lemma_fundamental_div_mod(n, c);
    assert(0 <= n % c < c);
    assert(q * c == c * q) by (nonlinear_arith);
    assert((q - 1) * c == q * c - c) by (nonlinear_arith);
    assert(0 <= q) by (nonlinear_arith)
        requires
            q == n / c,
            0 <= n,
            0 < c,
    ;
    if len == 0 {
        assert(q == 0) by (nonlinear_arith)
            requires
                q * c <= c - 1,
                0 <= q,
                0 < c,
        ;
    }
}

/// Downmixing is local: output sample `i` is what `mix` makes of exactly the samples of frame `i`,
/// all of them and in order, of which only the last frame may have fewer than there are channels.
pub proof fn downmixing_is_local<S, M: Fn(&[S]) -> S>(
    data: Seq<S>,
    channels: nat,
    mix: M,
    out: Seq<S>,
    i: int,
)
    requires
        channels > 0,
        downmixed(data, channels, mix, out),
        0 <= i < out.len(),
    ensures
        i * channels < data.len() <= out.len() * channels,
        exists|f: &[S]|
            {
                &&& #[trigger] call_ensures(mix, (f,), out[i])
                &&& f@ == if (i + 1) * channels <= data.len() {
                    data.subrange(i * channels, (i + 1) * channels)
                } else {
                    data.skip(i * channels)
                }
            },
        (i + 1) * channels > data.len() ==> i == out.len() - 1,
{
    frames_cover_the_samples(data.len(), channels);
    let c = channels as int;
    let n = out.len() as int;
    assert(i * c <= (n - 1) * c) by (nonlinear_arith)
        requires
            i <= n - 1,
            0 < c,
    ;
    assert(0 <= i * c) by (nonlinear_arith)
        requires
            0 <= i,
            0 < c,
    ;
    assert((i + 1) * c == i * c + c) by (nonlinear_arith);
    if i < n - 1 {
        assert((i + 1) * c <= (n - 1) * c) by (nonlinear_arith)
            requires
                i + 1 <= n - 1,
                0 < c,
        ;
    }
    assert(mixed(frame(data, channels, i), mix, out[i]));
    let f = choose|f: &[S]| #[trigger] call_ensures(mix, (f,), out[i]) && f@ == frame(
        data,
        channels,
        i,
    );
    if (i + 1) * c > data.len() {
        assert(f@ =~= data.skip(i * c));
    }
    assert(call_ensures(mix, (f,), out[i]));
}

/// Resampling is local: where `position` says that an output sample lies between source samples `k`
/// and `k + 1`, it is what `lerp` makes of exactly these two, and from the last source sample on it
/// is what `lerp` makes of that one alone.
pub proof fn resampling_is_local<S, T, P: Fn(usize) -> (usize, T), L: Fn(S, S, T) -> S>(
    mono: Seq<S>,
    position: P,
    lerp: L,
    out: Seq<S>,
    i: usize,
)
    requires
        mono.len() > 0,
        resampled(mono, position, lerp, out),
        i < out.len(),
    ensures
        exists|p: (usize, T)|
            {
                &&& #[trigger] call_ensures(position, (i,), p)
                &&& p.0 + 1 < mono.len() ==> call_ensures(
                    lerp,
                    (mono[p.0 as int], mono[p.0 + 1], p.1),
                    out[i as int],
                )
                &&& p.0 + 1 >= mono.len() ==> call_ensures(
                    lerp,
                    (mono[mono.len() - 1], mono[mono.len() - 1], p.1),
                    out[i as int],
                )
            },
{
    assert(blended(mono, position, lerp, i, out[i as int]));
    let p = choose|p: (usize, T)| #[trigger]
        call_ensures(position, (i,), p) && call_ensures(
            lerp,
            (sample_at(mono, p.0 as int), sample_at(mono, p.0 + 1), p.1),
            out[i as int],
        );
    assert(call_ensures(position, (i,), p));
}

/// What a chunk is made of: at the wanted rate, a mono stream is passed on as it is and any other
/// is downmixed. At another rate, the same is resampled, to as many samples as `resampled_len` says.
pub proof fn conversion_mixes_then_resamples<
    S,
    T,
    M: Fn(&[S]) -> S,
    N: Fn(usize) -> usize,
    P: Fn(usize) -> (usize, T),
    L: Fn(S, S, T) -> S,
>(
    plan: StreamPlan,
    data: Seq<S>,
    sample_rate: u32,
    mix: M,
    resampled_len: N,
    position: P,
    lerp: L,
    out: Seq<S>,
)
    requires
        converted(plan, data, sample_rate, mix, resampled_len, position, lerp, out),
    ensures
        plan.channels <= 1 && plan.sample_rate == sample_rate ==> out == data,
        plan.channels > 1 && plan.sample_rate == sample_rate ==> downmixed(
            data,
            plan.channels as nat,
            mix,
            out,
        ),
        plan.channels <= 1 && plan.sample_rate != sample_rate ==> resampled(
            data,
            position,
            lerp,
            out,
        ) && call_ensures(resampled_len, (data.len() as usize,), out.len() as usize),
        plan.channels > 1 && plan.sample_rate != sample_rate ==> exists|mono: Seq<S>|
            {
                &&& #[trigger] downmixed(data, plan.channels as nat, mix, mono)
                &&& resampled(mono, position, lerp, out)
                &&& call_ensures(resampled_len, (mono.len() as usize,), out.len() as usize)
            },
{
    let mono = choose|mono: Seq<S>|
        {
            &&& #[trigger] single_channel(plan, data, mix, mono)
            &&& if plan.sample_rate != sample_rate {
                &&& call_ensures(resampled_len, (mono.len() as usize,), out.len() as usize)
                &&& resampled(mono, position, lerp, out)
            } else {
                out == mono
            }
        };
    if plan.channels > 1 {
        assert(downmixed(data, plan.channels as nat, mix, mono));
    }
}

} // verus!
