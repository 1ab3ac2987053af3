//! The audio track: cutting the audio into Opus frames, the registry of connected peers, and the
//! exchange of session descriptions.
use vstd::prelude::*;

use crate::audio::{hear, AudioEvent, Heard};
use crate::latency_test::{inject_due, ChirpState};

verus! {

/// The clock rate of the audio track in samples per second.
pub const CLOCK_RATE: u32 = 48_000;

/// The bit rate that the encoder is set to.
pub const OPUS_BITRATE: i32 = 32_000;

/// The complexity that the encoder is set to.
pub const OPUS_COMPLEXITY: u8 = 5;

/// Room for the largest Opus packet, in bytes.
pub const OPUS_PACKET_SIZE: usize = 4_000;

/// The number of samples in a frame of so many milliseconds.
pub open spec fn frame_samples(frame_ms: nat) -> nat {
    48_000 * frame_ms / 1_000
}

/// The buffer with its last samples replaced by `tail`.
pub open spec fn with_tail(buffer: Seq<i16>, tail: Seq<i16>) -> Seq<i16>
    recommends
        tail.len() <= buffer.len(),
{
    buffer.take(buffer.len() - tail.len()) + tail
}

/// So many samples of silence.
pub open spec fn silence(count: nat) -> Seq<i16> {
    Seq::new(count, |i: int| 0i16)
}

/// Whether a chirp is injected with the next `count` samples: one is due, and it is no longer than
/// the buffer then is.
pub open spec fn injects(
    buffer: Seq<i16>,
    count: nat,
    chirp: Option<&ChirpState<i16>>,
    seen: u64,
) -> bool {
    match chirp {
        None => false,
        Some(state) => inject_due(state.generation(), seen) && state.waveform().len()
            <= buffer.len() + count,
    }
}

/// What the buffer holds after a chunk: the audio itself, or in latency test mode silence of the
/// same length (which avoids a feedback loop), with the chirp at its end if one is injected.
pub open spec fn buffered(
    buffer: Seq<i16>,
    samples: Seq<i16>,
    chirp: Option<&ChirpState<i16>>,
    seen: u64,
) -> Seq<i16> {
    match chirp {
        None => buffer + samples,
        Some(state) => if injects(buffer, samples.len(), chirp, seen) {
            with_tail(buffer + silence(samples.len()), state.waveform())
        } else {
            buffer + silence(samples.len())
        },
    }
}

/// The last chirp generation that was injected, after a chunk of `count` samples. A chirp that did
/// not fit stays due.
pub open spec fn seen_after(
    buffer: Seq<i16>,
    count: nat,
    chirp: Option<&ChirpState<i16>>,
    seen: u64,
) -> u64 {
    match chirp {
        Some(state) => if injects(buffer, count, chirp, seen) {
            state.generation()
        } else {
            seen
        },
        None => seen,
    }
}

/// What to do about an event of the audio channel.
#[derive(Debug, Clone, Copy, PartialEq, Eq, Structural)]
pub enum WriterAction {
    /// Wait for the next event.
    Wait,
    /// Encode and write all complete frames.
    Encode,
    /// End the writer.
    Stop,
}

/// Collects audio and hands it out in complete Opus frames.
pub struct TrackWriter {
    frame_size: usize,
    pcm_buffer: Vec<i16>,
    chirp_gen: u64,
}

impl TrackWriter {
    /// The number of samples in a frame.
    pub closed spec fn frame_size(self) -> nat {
        self.frame_size as nat
    }

    /// The samples that no frame has taken yet.
    pub closed spec fn pending(self) -> Seq<i16> {
        self.pcm_buffer@
    }

    /// The last chirp generation that was injected.
    pub closed spec fn seen(self) -> u64 {
        self.chirp_gen
    }

    /// A frame holds something.
    pub open spec fn wf(self) -> bool {
        self.frame_size() > 0
    }

    /// Starts with an empty buffer. `opus_frame_ms` is the duration of a frame.
    pub fn new(opus_frame_ms: u64) -> (r: TrackWriter)
        requires
            0 < opus_frame_ms,
            48_000 * opus_frame_ms <= usize::MAX,
        ensures
            r.wf(),
            r.frame_size() == frame_samples(opus_frame_ms as nat),
            r.pending() == Seq::<i16>::empty(),
            r.seen() == 0,
    {
        let frame_size: usize = (48_000 * opus_frame_ms as usize) / 1_000;
        TrackWriter { frame_size, pcm_buffer: Vec::new(), chirp_gen: 0 }
    }

    /// Adds a chunk of audio. In latency test mode (with a chirp state) silence takes its place,
    /// and a chirp that is due overwrites the end of the buffer. A chirp that is longer than what
    /// is buffered waits for more.
    pub fn accept(&mut self, samples: &[i16], chirp: Option<&ChirpState<i16>>)
        requires
            old(self).wf(),
        ensures
            final(self).wf(),
            final(self).frame_size() == old(self).frame_size(),
            final(self).pending() == buffered(
                old(self).pending(),
                samples@,
                chirp,
                old(self).seen(),
            ),
            final(self).seen() == seen_after(
                old(self).pending(),
                samples@.len(),
                chirp,
                old(self).seen(),
            ),
            chirp is None ==> final(self).pending() == old(self).pending() + samples@,
    {
        let n: usize = samples.len();
        let ghost start = self.pcm_buffer@;
        match chirp {
            None => {
                let mut i: usize = 0;
                while i < n
                    invariant
                        n == samples@.len(),
                        i <= n,
                        self.pcm_buffer@ == start + samples@.take(i as int),
                        self.frame_size == old(self).frame_size,
                        self.chirp_gen == old(self).chirp_gen,
                    decreases n - i,
                {
                    self.pcm_buffer.push(samples[i]);
                    assert(self.pcm_buffer@ =~= start + samples@.take(i + 1));
                    i += 1;
                }
                assert(samples@.take(n as int) =~= samples@);
            },
            Some(state) => {
                let mut i: usize = 0;
                while i < n
                    invariant
                        n == samples@.len(),
                        i <= n,
                        self.pcm_buffer@ == start + silence(i as nat),
                        self.frame_size == old(self).frame_size,
                        self.chirp_gen == old(self).chirp_gen,
                    decreases n - i,
                {
                    self.pcm_buffer.push(0);
                    assert(self.pcm_buffer@ =~= start + silence((i + 1) as nat));
                    i += 1;
                }
                let wave = state.chirp();
                let mut chirp_gen: u64 = self.chirp_gen;
                if wave.len() <= self.pcm_buffer.len() && state.should_inject(&mut chirp_gen) {
                    let from: usize = self.pcm_buffer.len() - wave.len();
                    let ghost whole = self.pcm_buffer@;
                    self.pcm_buffer.truncate(from);
                    let mut j: usize = 0;
                    while j < wave.len()
                        invariant
                            j <= wave@.len(),
                            self.pcm_buffer@ == whole.take(from as int) + wave@.take(j as int),
                            self.frame_size == old(self).frame_size,
                            self.chirp_gen == old(self).chirp_gen,
                        decreases wave@.len() - j,
                    {
                        self.pcm_buffer.push(wave[j]);
                        assert(self.pcm_buffer@ =~= whole.take(from as int) + wave@.take(j + 1));
                        j += 1;
                    }
                    assert(wave@.take(j as int) =~= wave@);
                    self.chirp_gen = chirp_gen;
                }
            },
        }
    }

    /// What to do about an event of the audio channel: samples are added to the buffer, empty and
    /// lost chunks are passed over, and the end of the audio is the end of the writer.
    pub fn on_event(
        &mut self,
        event: AudioEvent<i16>,
        chirp: Option<&ChirpState<i16>>,
    ) -> (r: WriterAction)
        requires
            old(self).wf(),
        ensures
            final(self).wf(),
            final(self).frame_size() == old(self).frame_size(),
            match event {
                AudioEvent::Chunk(chunk) => if chunk.samples@.len() == 0 {
                    r == WriterAction::Wait && *final(self) == *old(self)
                } else {
                    &&& r == WriterAction::Encode
                    &&& final(self).pending() == buffered(
                        old(self).pending(),
                        chunk.samples@,
                        chirp,
                        old(self).seen(),
                    )
                    &&& final(self).seen() == seen_after(
                        old(self).pending(),
                        chunk.samples@.len(),
                        chirp,
                        old(self).seen(),
                    )
                },
                AudioEvent::Lagged(_) => r == WriterAction::Wait && *final(self) == *old(self),
                AudioEvent::Closed => r == WriterAction::Stop && *final(self) == *old(self),
            },
    {
        match hear(event) {
            Heard::Samples(chunk) => {
                self.accept(chunk.samples.as_slice(), chirp);
                WriterAction::Encode
            },
            Heard::Nothing => WriterAction::Wait,
            Heard::End => WriterAction::Stop,
        }
    }

    /// Takes the next complete frame, if there is one.
    pub fn next_frame(&mut self) -> (r: Option<Vec<i16>>)
        requires
            old(self).wf(),
        ensures
            final(self).wf(),
            final(self).frame_size() == old(self).frame_size(),
            final(self).seen() == old(self).seen(),
            match r {
                Some(frame) => {
                    let size = old(self).frame_size() as int;
                    &&& size <= old(self).pending().len()
                    &&& frame@ == old(self).pending().take(size)
                    &&& final(self).pending() == old(self).pending().skip(size)
                },
                None => {
                    &&& old(self).pending().len() < old(self).frame_size()
                    &&& final(self).pending() == old(self).pending()
                },
            },
    {
        if self.pcm_buffer.len() < self.frame_size {
            return None;
        }
        let mut rest: Vec<i16> = self.pcm_buffer.split_off(self.frame_size);
        std::mem::swap(&mut rest, &mut self.pcm_buffer);
        assert(rest@ =~= old(self).pending().take(old(self).frame_size() as int));
        assert(self.pcm_buffer@ =~= old(self).pending().skip(old(self).frame_size() as int));
        Some(rest)
    }
}

/// The complete frames of `size` samples that a buffer holds, in order.
pub open spec fn whole_frames(buffer: Seq<i16>, size: nat) -> Seq<Seq<i16>>
    decreases buffer.len(),
{
    if 0 < size <= buffer.len() {
        seq![buffer.take(size as int)] + whole_frames(buffer.skip(size as int), size)
    } else {
        seq![]
    }
}

/// What is left of a buffer when its complete frames are gone.
pub open spec fn left_over(buffer: Seq<i16>, size: nat) -> Seq<i16>
    decreases buffer.len(),
{
    if 0 < size <= buffer.len() {
        left_over(buffer.skip(size as int), size)
    } else {
        buffer
    }
}

/// The frames put end to end.
pub open spec fn joined(frames: Seq<Seq<i16>>) -> Seq<i16>
    decreases frames.len(),
{
    if frames.len() == 0 {
        seq![]
    } else {
        frames[0] + joined(frames.drop_first())
    }
}

/// No sample is lost, doubled or moved on its way into frames: the frames put end to end, with
/// what stays in the buffer behind them, are the buffer. Less than a frame stays.
pub proof fn frames_keep_every_sample(buffer: Seq<i16>, size: nat)
    requires
        size > 0,
    ensures
        joined(whole_frames(buffer, size)) + left_over(buffer, size) == buffer,
        left_over(buffer, size).len() < size,
        forall|i: int|
            0 <= i < whole_frames(buffer, size).len() ==> (#[trigger] whole_frames(
                buffer,
                size,
            )[i]).len() == size,
    decreases buffer.len(),
{
    if size <= buffer.len() {
        let rest = buffer.skip(size as int);
        frames_keep_every_sample(rest, size);
        let frames = whole_frames(buffer, size);
        assert(frames.drop_first() =~= whole_frames(rest, size));
        assert(frames[0] == buffer.take(size as int));
        assert(joined(frames) + left_over(buffer, size) =~= buffer.take(size as int) + (joined(
            whole_frames(rest, size),
        ) + left_over(rest, size)));
        assert(buffer.take(size as int) + rest =~= buffer);
        assert forall|i: int| 0 <= i < frames.len() implies (#[trigger] frames[i]).len() == size by {
            if i > 0 {
                assert(frames[i] == whole_frames(rest, size)[i - 1]);
            }
        }
    } else {
        assert(joined(whole_frames(buffer, size)) + buffer =~= buffer);
    }
}

/// How the audio is cut into chunks on its way in does not matter: taking all frames and then
/// adding more gives the same frames as adding first.
pub proof fn chunking_does_not_matter(buffer: Seq<i16>, more: Seq<i16>, size: nat)
    requires
        size > 0,
    ensures
        whole_frames(buffer + more, size) == whole_frames(buffer, size) + whole_frames(
            left_over(buffer, size) + more,
            size,
        ),
        left_over(buffer + more, size) == left_over(left_over(buffer, size) + more, size),
    decreases buffer.len(),
{
    if size <= buffer.len() {
        let rest = buffer.skip(size as int);
        chunking_does_not_matter(rest, more, size);
        assert((buffer + more).take(size as int) =~= buffer.take(size as int));
        assert((buffer + more).skip(size as int) =~= rest + more);
        assert(whole_frames(buffer + more, size) =~= whole_frames(buffer, size) + whole_frames(
            left_over(buffer, size) + more,
            size,
        ));
    } else {
        assert(whole_frames(buffer + more, size) =~= whole_frames(buffer, size) + whole_frames(
            buffer + more,
            size,
        ));
    }
}

/// What a run of chunks becomes in normal mode, when all complete frames are taken after each of
/// them: the frames, and what stays in the buffer.
pub open spec fn written(chunks: Seq<Seq<i16>>, size: nat) -> (Seq<Seq<i16>>, Seq<i16>)
    decreases chunks.len(),
{
    if chunks.len() == 0 {
        (seq![], seq![])
    } else {
        let before = written(chunks.drop_last(), size);
        let buffer = buffered(before.1, chunks.last(), None, 0);
        (before.0 + whole_frames(buffer, size), left_over(buffer, size))
    }
}

/// The chunks put end to end.
pub open spec fn all_samples(chunks: Seq<Seq<i16>>) -> Seq<i16>
    decreases chunks.len(),
{
    if chunks.len() == 0 {
        seq![]
    } else {
        all_samples(chunks.drop_last()) + chunks.last()
    }
}

/// Over a whole run the track carries the audio as it came: the frames written so far, with what
/// still waits in the buffer behind them, are all samples of all chunks in order.
pub proof fn track_carries_the_audio(chunks: Seq<Seq<i16>>, size: nat)
    requires
        size > 0,
    ensures
        written(chunks, size).0 == whole_frames(all_samples(chunks), size),
        written(chunks, size).1 == left_over(all_samples(chunks), size),
        joined(written(chunks, size).0) + written(chunks, size).1 == all_samples(chunks),
        written(chunks, size).1.len() < size,
    decreases chunks.len(),
{
    if chunks.len() > 0 {
        let front = chunks.drop_last();
        track_carries_the_audio(front, size);
        chunking_does_not_matter(all_samples(front), chunks.last(), size);
    }
    frames_keep_every_sample(all_samples(chunks), size);
}

/// A step of a latency test: the chunk that comes, and the chirp state at that time.
pub struct TestStep {
    pub samples: Seq<i16>,
    pub state: ChirpState<i16>,
}

/// A chirp that was injected: its generation, and the place of its first sample in all that goes
/// out.
pub struct Injection {
    pub generation: u64,
    pub place: int,
}

/// How a latency test stands: the frames written, what stays in the buffer, the last generation
/// that was injected, and what was injected.
pub struct TestRun {
    pub frames: Seq<Seq<i16>>,
    pub buffer: Seq<i16>,
    pub seen: u64,
    pub injected: Seq<Injection>,
}

/// All that goes out of a latency test: the frames written, and what stays in the buffer behind
/// them.
pub open spec fn outgoing(run: TestRun) -> Seq<i16> {
    joined(run.frames) + run.buffer
}

/// How a latency test stands after some steps, when all complete frames are taken after each of
/// them.
pub open spec fn tested(steps: Seq<TestStep>, size: nat) -> TestRun
    decreases steps.len(),
{
    if steps.len() == 0 {
        TestRun { frames: seq![], buffer: seq![], seen: 0, injected: seq![] }
    } else {
        let before = tested(steps.drop_last(), size);
        let samples = steps.last().samples;
        let state = steps.last().state;
        let buffer = buffered(before.buffer, samples, Some(&state), before.seen);
        TestRun {
            frames: before.frames + whole_frames(buffer, size),
            buffer: left_over(buffer, size),
            seen: seen_after(before.buffer, samples.len(), Some(&state), before.seen),
            injected: if injects(before.buffer, samples.len(), Some(&state), before.seen) {
                before.injected.push(
                    Injection {
                        generation: state.generation(),
                        place: outgoing(before).len() + samples.len() - state.waveform().len(),
                    },
                )
            } else {
                before.injected
            },
        }
    }
}

/// Whether two steps are the same but for what the microphone hears.
pub open spec fn same_but_for_audio(a: TestStep, b: TestStep) -> bool {
    &&& a.samples.len() == b.samples.len()
    &&& a.state.generation() == b.state.generation()
    &&& a.state.waveform() == b.state.waveform()
}

/// In latency test mode nothing of the microphone is sent: over a whole run, the frames and what
/// stays in the buffer are the same for any audio, if the chunks have the same lengths and the
/// chirps are armed alike.
pub proof fn latency_test_sends_no_microphone_audio(
    a: Seq<TestStep>,
    b: Seq<TestStep>,
    size: nat,
)
    requires
        a.len() == b.len(),
        forall|i: int| 0 <= i < a.len() ==> same_but_for_audio(#[trigger] a[i], b[i]),
    ensures
        tested(a, size) == tested(b, size),
    decreases a.len(),
{
    if a.len() > 0 {
        assert forall|i: int| 0 <= i < a.drop_last().len() implies same_but_for_audio(
            #[trigger] a.drop_last()[i],
            b.drop_last()[i],
        ) by {
            assert(same_but_for_audio(a[i], b[i]));
        }
        latency_test_sends_no_microphone_audio(a.drop_last(), b.drop_last(), size);
        assert(same_but_for_audio(a[a.len() - 1], b[b.len() - 1]));
    }
}

/// The sample at place `k` of silence with the chirp at the given places; where chirps overlap, the
/// later one is heard.
pub open spec fn chirps_in_silence(chirp: Seq<i16>, injected: Seq<Injection>, k: int) -> i16
    decreases injected.len(),
{
    if injected.len() == 0 {
        0
    } else {
        let place = injected.last().place;
        if place <= k < place + chirp.len() {
            chirp[k - place]
        } else {
            chirps_in_silence(chirp, injected.drop_last(), k)
        }
    }
}

/// The number of samples that came in.
pub open spec fn samples_in(steps: Seq<TestStep>) -> nat
    decreases steps.len(),
{
    if steps.len() == 0 {
        0
    } else {
        samples_in(steps.drop_last()) + steps.last().samples.len()
    }
}

/// Whether the encoder saw a generation at some step.
pub open spec fn was_seen(steps: Seq<TestStep>, generation: u64) -> bool {
    exists|i: int| 0 <= i < steps.len() && (#[trigger] steps[i]).state.generation() == generation
}

/// Whether a generation was injected.
pub open spec fn was_injected(injected: Seq<Injection>, generation: u64) -> bool {
    exists|j: int| 0 <= j < injected.len() && (#[trigger] injected[j]).generation == generation
}

/// Putting two runs of frames end to end.
proof fn lemma_joined(a: Seq<Seq<i16>>, b: Seq<Seq<i16>>)
    ensures
        joined(a + b) == joined(a) + joined(b),
    decreases a.len(),
{
    if a.len() == 0 {
        assert(a + b =~= b);
        assert(joined(a) + joined(b) =~= joined(b));
    } else {
        lemma_joined(a.drop_first(), b);
        assert((a + b).drop_first() =~= a.drop_first() + b);
        assert((a + b)[0] == a[0]);
        assert(joined(a + b) =~= joined(a) + joined(b));
    }
}

/// Where all chirps lie within the first `len` samples, there is silence from there on.
proof fn lemma_silence_behind(chirp: Seq<i16>, injected: Seq<Injection>, len: int, k: int)
    requires
        forall|j: int|
            0 <= j < injected.len() ==> (#[trigger] injected[j]).place + chirp.len() <= len,
        k >= len,
    ensures
        chirps_in_silence(chirp, injected, k) == 0,
    decreases injected.len(),
{
    if injected.len() > 0 {
        assert(injected[injected.len() - 1].place + chirp.len() <= len);
        assert forall|j: int| 0 <= j < injected.drop_last().len() implies (
        #[trigger] injected.drop_last()[j]).place + chirp.len() <= len by {
            assert(injected.drop_last()[j] == injected[j]);
        }
        lemma_silence_behind(chirp, injected.drop_last(), len, k);
    }
}

/// Over a whole latency test, what goes out is as long as what came in, and it is silence but for
/// the chirps that were injected. No chirp is injected twice, and none before it was armed: the
/// generations of the chirps go up, and each is one that the encoder saw at some step.
pub proof fn latency_test_sends_only_chirps(steps: Seq<TestStep>, chirp: Seq<i16>, size: nat)
    requires
        size > 0,
        forall|i: int| 0 <= i < steps.len() ==> (#[trigger] steps[i]).state.waveform() == chirp,
    ensures
        outgoing(tested(steps, size)).len() == samples_in(steps),
        forall|k: int|
            0 <= k < samples_in(steps) ==> #[trigger] outgoing(tested(steps, size))[k]
                == chirps_in_silence(chirp, tested(steps, size).injected, k),
        forall|j: int|
            0 <= j < tested(steps, size).injected.len() ==> {
                let injection = #[trigger] tested(steps, size).injected[j];
                &&& 0 <= injection.place
                &&& injection.place + chirp.len() <= samples_in(steps)
                &&& 0 < injection.generation <= tested(steps, size).seen
                &&& was_seen(steps, injection.generation)
            },
        forall|i: int, j: int|
            0 <= i < j < tested(steps, size).injected.len() ==> (#[trigger] tested(
                steps,
                size,
            ).injected[i]).generation < (#[trigger] tested(steps, size).injected[j]).generation,
    decreases steps.len(),
{
    if steps.len() > 0 {
        let front = steps.drop_last();
        let last = steps.last();
        assert forall|i: int| 0 <= i < front.len() implies (#[trigger] front[i]).state.waveform()
            == chirp by {
            assert(front[i] == steps[i]);
        }
        latency_test_sends_only_chirps(front, chirp, size);
        let before = tested(front, size);
        let run = tested(steps, size);
        let count = last.samples.len();
        let whole = outgoing(before);
        let buffer = buffered(before.buffer, last.samples, Some(&last.state), before.seen);
        assert(steps[steps.len() - 1].state.waveform() == chirp);
        frames_keep_every_sample(buffer, size);
        lemma_joined(before.frames, whole_frames(buffer, size));
        assert(outgoing(run) =~= joined(before.frames) + buffer);
        let injecting = injects(before.buffer, count, Some(&last.state), before.seen);
        assert forall|j: int| 0 <= j < before.injected.len() implies was_seen(
            steps,
            (#[trigger] before.injected[j]).generation,
        ) by {
            let i = choose|i: int|
                0 <= i < front.len() && (#[trigger] front[i]).state.generation()
                    == before.injected[j].generation;
            assert(steps[i] == front[i]);
        }
        assert(was_seen(steps, last.state.generation())) by {
            assert(steps[steps.len() - 1] == last);
        }
        assert forall|k: int| 0 <= k < samples_in(steps) implies #[trigger] outgoing(run)[k]
            == chirps_in_silence(chirp, run.injected, k) by {
            if k < whole.len() {
                assert(whole[k] == chirps_in_silence(chirp, before.injected, k));
            } else {
                lemma_silence_behind(chirp, before.injected, whole.len() as int, k);
            }
            if injecting {
                assert(run.injected.drop_last() =~= before.injected);
            }
        }
    }
}

/// Where every chunk is at least as long as the chirp, no arming that the encoder sees is passed
/// over: after any run with generations that never go back, each generation seen was injected,
/// once.
pub proof fn every_arming_seen_is_heard(steps: Seq<TestStep>, chirp: Seq<i16>, size: nat)
    requires
        size > 0,
        forall|i: int|
            0 <= i < steps.len() ==> (#[trigger] steps[i]).state.waveform() == chirp
                && chirp.len() <= steps[i].samples.len(),
        forall|i: int, j: int|
            0 <= i < j < steps.len() ==> (#[trigger] steps[i]).state.generation() <= (
            #[trigger] steps[j]).state.generation(),
    ensures
        steps.len() > 0 ==> tested(steps, size).seen == steps.last().state.generation(),
        forall|i: int|
            0 <= i < steps.len() && (#[trigger] steps[i]).state.generation() > 0 ==> was_injected(
                tested(steps, size).injected,
                steps[i].state.generation(),
            ),
    decreases steps.len(),
{
    if steps.len() > 0 {
        let front = steps.drop_last();
        let last = steps.last();
        assert(forall|i: int| 0 <= i < front.len() ==> front[i] == steps[i]);
        every_arming_seen_is_heard(front, chirp, size);
        let before = tested(front, size);
        let run = tested(steps, size);
        assert(steps[steps.len() - 1] == last);
        if front.len() > 0 {
            assert(front.last() == steps[steps.len() - 2]);
            assert(front[front.len() - 1].state.generation() <= last.state.generation());
        }
        let generation = last.state.generation();
        if inject_due(generation, before.seen) {
            assert(run.injected[before.injected.len() as int].generation == generation);
            assert(was_injected(run.injected, generation));
        } else if generation > 0 {
            assert(before.seen == generation);
            if front.len() > 0 {
                assert(was_injected(before.injected, front[front.len() - 1].state.generation()));
            }
        }
        assert forall|i: int| 0 <= i < steps.len() && (#[trigger] steps[i]).state.generation()
            > 0 implies was_injected(run.injected, steps[i].state.generation()) by {
            if i < front.len() {
                assert(front[i] == steps[i]);
                assert(was_injected(before.injected, front[i].state.generation()));
                let j = choose|j: int|
                    0 <= j < before.injected.len() && (#[trigger] before.injected[j]).generation
                        == front[i].state.generation();
                assert(run.injected[j] == before.injected[j]);
            } else if !inject_due(generation, before.seen) {
                let j = choose|j: int|
                    0 <= j < before.injected.len() && (#[trigger] before.injected[j]).generation
                        == generation;
                assert(run.injected[j] == before.injected[j]);
            }
        }
    }
}

/// A chunk adds as many samples as it holds, in either mode, so that the test keeps the timing.
pub proof fn every_chunk_keeps_its_length(
    buffer: Seq<i16>,
    samples: Seq<i16>,
    chirp: Option<&ChirpState<i16>>,
    seen: u64,
)
    ensures
        buffered(buffer, samples, chirp, seen).len() == buffer.len() + samples.len(),
{
}

/// An armed chirp is not lost: with every chunk it is either injected, or it stays due, and it is
/// injected as soon as enough is buffered.
pub proof fn armed_chirp_is_not_lost(
    buffer: Seq<i16>,
    samples: Seq<i16>,
    state: &ChirpState<i16>,
    seen: u64,
)
    requires
        inject_due(state.generation(), seen),
    ensures
        injects(buffer, samples.len(), Some(state), seen) <==> state.waveform().len() <= buffer.len()
            + samples.len(),
        injects(buffer, samples.len(), Some(state), seen) ==> {
            let after = buffered(buffer, samples, Some(state), seen);
            &&& after.skip(after.len() - state.waveform().len()) == state.waveform()
            &&& !inject_due(
                state.generation(),
                seen_after(buffer, samples.len(), Some(state), seen),
            )
        },
        !injects(buffer, samples.len(), Some(state), seen) ==> inject_due(
            state.generation(),
            seen_after(buffer, samples.len(), Some(state), seen),
        ),
{
    if injects(buffer, samples.len(), Some(state), seen) {
        let after = buffered(buffer, samples, Some(state), seen);
        assert(after.skip(after.len() - state.waveform().len()) =~= state.waveform());
    }
}

/// The sum of all intervals.
pub open spec fn total(intervals: Seq<u64>) -> int
    decreases intervals.len(),
{
    if intervals.len() == 0 {
        0
    } else {
        total(intervals.drop_last()) + intervals.last()
    }
}

/// The least interval, or the largest number where there is none.
pub open spec fn least(intervals: Seq<u64>) -> u64
    decreases intervals.len(),
{
    if intervals.len() == 0 {
        u64::MAX
    } else if intervals.last() < least(intervals.drop_last()) {
        intervals.last()
    } else {
        least(intervals.drop_last())
    }
}

/// The greatest interval, or zero where there is none.
pub open spec fn greatest(intervals: Seq<u64>) -> u64
    decreases intervals.len(),
{
    if intervals.len() == 0 {
        0
    } else if intervals.last() > greatest(intervals.drop_last()) {
        intervals.last()
    } else {
        greatest(intervals.drop_last())
    }
}

/// A summary of the intervals between packets, in microseconds.
#[derive(Debug, Clone, Copy, PartialEq, Eq, Structural)]
pub struct SendReport {
    pub count: u64,
    pub sum_us: u64,
    pub min_us: u64,
    pub max_us: u64,
}

/// Watches the intervals between packets.
pub struct SendStats {
    send_count: u64,
    delta_sum_us: u64,
    min_delta_us: u64,
    max_delta_us: u64,
    seen: Ghost<Seq<u64>>,
}

impl SendStats {
    /// The number of packets sent.
    pub closed spec fn sent(self) -> nat {
        self.send_count as nat
    }

    /// The intervals between the packets sent.
    pub closed spec fn intervals(self) -> Seq<u64> {
        self.seen@
    }

    /// The counters show what happened: there is an interval before every packet but the first.
    pub closed spec fn wf(self) -> bool {
        &&& self.seen@.len() == if self.send_count == 0 {
            0
        } else {
            self.send_count - 1
        }
        &&& self.delta_sum_us == total(self.seen@)
        &&& self.min_delta_us == least(self.seen@)
        &&& self.max_delta_us == greatest(self.seen@)
    }

    /// The summary of what was seen so far.
    pub open spec fn summary(self) -> SendReport {
        SendReport {
            count: self.intervals().len() as u64,
            sum_us: total(self.intervals()) as u64,
            min_us: least(self.intervals()),
            max_us: greatest(self.intervals()),
        }
    }

    /// Whether another packet fits into the counters.
    pub open spec fn can_count(self, delta_us: u64) -> bool {
        &&& self.sent() < u64::MAX
        &&& self.sent() > 0 ==> total(self.intervals()) + delta_us <= u64::MAX
    }

    /// Starts with nothing sent.
    pub fn new() -> (r: SendStats)
        ensures
            r.wf(),
            r.sent() == 0,
            r.intervals() == Seq::<u64>::empty(),
    {
        SendStats {
            send_count: 0,
            delta_sum_us: 0,
            min_delta_us: u64::MAX,
            max_delta_us: 0,
            seen: Ghost(Seq::empty()),
        }
    }

    /// Decides [`SendStats::can_count`].
    pub fn has_room(&self, delta_us: u64) -> (r: bool)
        requires
            self.wf(),
        ensures
            r == self.can_count(delta_us),
    {
        self.send_count < u64::MAX && (self.send_count == 0 || delta_us <= u64::MAX
            - self.delta_sum_us)
    }

    /// Counts a packet that was sent `delta_us` after the one before; the first packet has no such
    /// interval, and what is given for it is not used. Every 500 packets there is a report.
    pub fn record(&mut self, delta_us: u64) -> (r: Option<SendReport>)
        requires
            old(self).wf(),
            old(self).can_count(delta_us),
        ensures
            final(self).wf(),
            final(self).sent() == old(self).sent() + 1,
            final(self).intervals() == if old(self).sent() == 0 {
                old(self).intervals()
            } else {
                old(self).intervals().push(delta_us)
            },
            r == if final(self).sent() % 500 == 0 {
                Some(final(self).summary())
            } else {
                None
            },
            r matches Some(report) ==> {
                &&& report.count == final(self).intervals().len()
                &&& report.sum_us == total(final(self).intervals())
                &&& report.min_us == least(final(self).intervals())
                &&& report.max_us == greatest(final(self).intervals())
            },
    {
        if self.send_count > 0 {
            proof {
                self.seen@ = self.seen@.push(delta_us);
                assert(self.seen@.drop_last() =~= old(self).seen@);
            }
            self.delta_sum_us = self.delta_sum_us + delta_us;
            if delta_us < self.min_delta_us {
                self.min_delta_us = delta_us;
            }
            if delta_us > self.max_delta_us {
                self.max_delta_us = delta_us;
            }
        }
        self.send_count = self.send_count + 1;
        if self.send_count > 1 && self.send_count % 500 == 0 {
            Some(
                SendReport {
                    count: self.send_count - 1,
                    sum_us: self.delta_sum_us,
                    min_us: self.min_delta_us,
                    max_us: self.max_delta_us,
                },
            )
        } else {
            None
        }
    }
}

/// The intervals lie between the least and the greatest, and so does their mean.
pub proof fn intervals_are_bounded(intervals: Seq<u64>)
    ensures
        forall|i: int|
            0 <= i < intervals.len() ==> least(intervals) <= #[trigger] intervals[i] <= greatest(
                intervals,
            ),
        intervals.len() > 0 ==> intervals.len() * least(intervals) <= total(intervals)
            <= intervals.len() * greatest(intervals),
    decreases intervals.len(),
{
    if intervals.len() > 0 {
        let front = intervals.drop_last();
        intervals_are_bounded(front);
        assert(forall|i: int| 0 <= i < front.len() ==> intervals[i] == front[i]);
        let n = front.len() as int;
        let lo = least(intervals) as int;
        let hi = greatest(intervals) as int;
        let front_lo = least(front) as int;
        let front_hi = greatest(front) as int;
        assert((n + 1) * lo == n * lo + lo) by (nonlinear_arith);
        assert((n + 1) * hi == n * hi + hi) by (nonlinear_arith);
        assert(n * lo <= n * front_lo) by (nonlinear_arith)
            requires
                n >= 0,
                lo <= front_lo,
        ;
        assert(n * front_hi <= n * hi) by (nonlinear_arith)
            requires
                n >= 0,
                front_hi <= hi,
        ;
        if n == 0 {
            assert(n * lo == 0 && n * hi == 0) by (nonlinear_arith)
                requires
                    n == 0,
            ;
            assert(total(front) == 0);
        } else {
            assert(n * front_lo <= total(front) <= n * front_hi);
        }
        let last = intervals.last() as int;
        assert(lo <= last <= hi);
        assert(total(intervals) == total(front) + last);
        assert(intervals.len() == n + 1);
        assert((n + 1) * lo <= total(intervals) <= (n + 1) * hi);
    }
}

/// What the shared audio track is called and how it is clocked.
#[derive(Debug)]
pub struct AudioTrack {
    pub id: String,
    pub stream_id: String,
    pub clock_rate: u32,
    pub channels: u16,
}

/// The state of the connection to a peer.
#[derive(Debug, Clone, Copy, PartialEq, Eq, Structural)]
pub enum IceConnectionState {
    Unspecified,
    New,
    Checking,
    Connected,
    Completed,
    Disconnected,
    Failed,
    Closed,
}

impl IceConnectionState {
    /// Whether there is no connection to the peer, be it for now or for good.
    pub open spec fn is_over(self) -> bool {
        self is Disconnected || self is Failed || self is Closed
    }

    /// Decides [`IceConnectionState::is_over`].
    fn over(self) -> (r: bool)
        ensures
            r == self.is_over(),
    {
        match self {
            IceConnectionState::Disconnected | IceConnectionState::Failed
            | IceConnectionState::Closed => true,
            _ => false,
        }
    }
}

/// Whether a peer is on the list.
pub open spec fn is_listed(list: Seq<(u64, IceConnectionState)>, peer: u64) -> bool {
    exists|i: int| 0 <= i < list.len() && (#[trigger] list[i]).0 == peer
}

/// A place at which a peer is listed.
pub open spec fn place_of(list: Seq<(u64, IceConnectionState)>, peer: u64) -> int {
    choose|i: int| 0 <= i < list.len() && (#[trigger] list[i]).0 == peer
}

/// The states of the peers on the list.
pub open spec fn states_of(list: Seq<(u64, IceConnectionState)>) -> Map<u64, IceConnectionState> {
    Map::new(
        |peer: u64| is_listed(list, peer),
        |peer: u64| list[place_of(list, peer)].1,
    )
}

/// The peers on the list, in order.
pub open spec fn numbers_of(list: Seq<(u64, IceConnectionState)>) -> Seq<u64> {
    list.map_values(|entry: (u64, IceConnectionState)| entry.0)
}

/// The peers whose connection is not over.
pub open spec fn connected(states: Map<u64, IceConnectionState>) -> Set<u64> {
    states.dom().filter(|peer: u64| !states[peer].is_over())
}

/// The states after `peer` got a new one. Of a peer that is not among them nothing is kept.
pub open spec fn with_state(
    states: Map<u64, IceConnectionState>,
    peer: u64,
    state: IceConnectionState,
) -> Map<u64, IceConnectionState> {
    if states.contains_key(peer) {
        states.insert(peer, state)
    } else {
        states
    }
}

/// The numbers without `peer`.
pub open spec fn without(numbers: Seq<u64>, peer: u64) -> Seq<u64> {
    if numbers.contains(peer) {
        numbers.remove(numbers.index_of(peer))
    } else {
        numbers
    }
}

/// The states of a list are those that its entries name.
proof fn lemma_states(
    list: Seq<(u64, IceConnectionState)>,
    states: Map<u64, IceConnectionState>,
)
    requires
        forall|i: int|
            0 <= i < list.len() ==> states.contains_key((#[trigger] list[i]).0)
                && states[list[i].0] == list[i].1,
        forall|peer: u64| #[trigger] states.contains_key(peer) ==> is_listed(list, peer),
    ensures
        states_of(list) == states,
{
    assert forall|peer: u64| #[trigger] states_of(list).contains_key(peer) implies states.contains_key(
        peer,
    ) && states_of(list)[peer] == states[peer] by {
        let i = place_of(list, peer);
        assert(states.contains_key(list[i].0));
    }
    assert(states_of(list) =~= states);
}

/// Without doubles every entry names a state.
proof fn lemma_entry(list: Seq<(u64, IceConnectionState)>, i: int)
    requires
        numbers_of(list).no_duplicates(),
        0 <= i < list.len(),
    ensures
        states_of(list).contains_key(list[i].0),
        states_of(list)[list[i].0] == list[i].1,
{
    let peer = list[i].0;
    assert(is_listed(list, peer));
    let j = place_of(list, peer);
    assert(numbers_of(list)[i] == peer && numbers_of(list)[j] == peer);
}

/// Finds the entry of a peer.
fn find_peer(list: &Vec<(u64, IceConnectionState)>, peer: u64) -> (r: Option<usize>)
    ensures
        match r {
            Some(i) => i < list@.len() && list@[i as int].0 == peer,
            None => !is_listed(list@, peer),
        },
{
    let n: usize = list.len();
    let mut i: usize = 0;
    while i < n
        invariant
            n == list@.len(),
            i <= n,
            forall|j: int| 0 <= j < i ==> (#[trigger] list@[j]).0 != peer,
        decreases n - i,
    {
        if list[i].0 == peer {
            return Some(i);
        }
        i += 1;
    }
    None
}

/// Puts a peer that is not yet listed at the end of the list.
fn add_peer(list: &mut Vec<(u64, IceConnectionState)>, peer: u64, state: IceConnectionState)
    requires
        numbers_of(old(list)@).no_duplicates(),
        !states_of(old(list)@).contains_key(peer),
    ensures
        numbers_of(final(list)@) == numbers_of(old(list)@).push(peer),
        numbers_of(final(list)@).no_duplicates(),
        states_of(final(list)@) == states_of(old(list)@).insert(peer, state),
{
    let ghost before = list@;
    list.push((peer, state));
    proof {
        let after = list@;
        assert(numbers_of(after) =~= numbers_of(before).push(peer));
        assert forall|i: int| 0 <= i < before.len() implies (#[trigger] before[i]).0 != peer by {
            lemma_entry(before, i);
        }
        assert forall|i: int, j: int| 0 <= i < j < after.len() implies numbers_of(after)[i]
            != numbers_of(after)[j] by {
            assert(numbers_of(before)[i] == before[i].0);
            if j < before.len() {
                assert(numbers_of(before)[j] == before[j].0);
            }
        }
        let states = states_of(before).insert(peer, state);
        assert forall|i: int| 0 <= i < after.len() implies states.contains_key(
            (#[trigger] after[i]).0,
        ) && states[after[i].0] == after[i].1 by {
            if i < before.len() {
                lemma_entry(before, i);
                assert(after[i] == before[i]);
            }
        }
        assert forall|p: u64| #[trigger] states.contains_key(p) implies is_listed(after, p) by {
            if p == peer {
                assert(after[before.len() as int].0 == p);
            } else {
                let i = choose|i: int| 0 <= i < before.len() && (#[trigger] before[i]).0 == p;
                assert(after[i].0 == p);
            }
        }
        lemma_states(after, states);
    }
}

/// Gives a peer a new state, if it is listed.
fn set_peer_state(list: &mut Vec<(u64, IceConnectionState)>, peer: u64, state: IceConnectionState)
    requires
        numbers_of(old(list)@).no_duplicates(),
    ensures
        numbers_of(final(list)@) == numbers_of(old(list)@),
        states_of(final(list)@) == with_state(states_of(old(list)@), peer, state),
{
    let ghost before = list@;
    if let Some(at) = find_peer(list, peer) {
        list.set(at, (peer, state));
        proof {
            let after = list@;
            assert(numbers_of(after) =~= numbers_of(before));
            lemma_entry(before, at as int);
            let states = states_of(before).insert(peer, state);
            assert forall|i: int| 0 <= i < after.len() implies states.contains_key(
                (#[trigger] after[i]).0,
            ) && states[after[i].0] == after[i].1 by {
                lemma_entry(before, i);
                if i != at {
                    assert(numbers_of(before)[i] != numbers_of(before)[at as int]);
                }
            }
            assert forall|p: u64| #[trigger] states.contains_key(p) implies is_listed(after, p) by {
                assert(is_listed(before, p));
                let i = choose|i: int| 0 <= i < before.len() && (#[trigger] before[i]).0 == p;
                assert(after[i].0 == p);
            }
            lemma_states(after, states);
        }
    }
}

/// Takes a peer off the list, and returns the state it had there.
fn remove_peer(list: &mut Vec<(u64, IceConnectionState)>, peer: u64) -> (r: Option<
    IceConnectionState,
>)
    requires
        numbers_of(old(list)@).no_duplicates(),
    ensures
        numbers_of(final(list)@) == without(numbers_of(old(list)@), peer),
        numbers_of(final(list)@).no_duplicates(),
        states_of(final(list)@) == states_of(old(list)@).remove(peer),
        match r {
            Some(state) => states_of(old(list)@).contains_key(peer) && state == states_of(
                old(list)@,
            )[peer],
            None => !states_of(old(list)@).contains_key(peer),
        },
{
    let ghost before = list@;
    let ghost numbers = numbers_of(before);
    match find_peer(list, peer) {
        Some(at) => {
            let entry = list.remove(at);
            proof {
                let after = list@;
                lemma_entry(before, at as int);
                assert(numbers[at as int] == peer);
                assert(numbers.index_of(peer) == at);
                assert(numbers_of(after) =~= numbers.remove(at as int));
                assert forall|i: int| 0 <= i < after.len() implies #[trigger] after[i] == before[if i
                    < at {
                    i
                } else {
                    i + 1
                }] by {}
                assert forall|i: int, j: int| 0 <= i < j < after.len() implies numbers_of(after)[i]
                    != numbers_of(after)[j] by {
                    let a = if i < at { i } else { i + 1 };
                    let b = if j < at { j } else { j + 1 };
                    assert(numbers[a] == after[i].0 && numbers[b] == after[j].0);
                }
                let states = states_of(before).remove(peer);
                assert forall|i: int| 0 <= i < after.len() implies states.contains_key(
                    (#[trigger] after[i]).0,
                ) && states[after[i].0] == after[i].1 by {
                    let a = if i < at { i } else { i + 1 };
                    lemma_entry(before, a);
                    assert(numbers[a] != numbers[at as int]);
                }
                assert forall|p: u64| #[trigger] states.contains_key(p) implies is_listed(
                    after,
                    p,
                ) by {
                    assert(is_listed(before, p));
                    let i = choose|i: int| 0 <= i < before.len() && (#[trigger] before[i]).0 == p;
                    assert(i != at);
                    assert(after[if i < at { i } else { i - 1 }].0 == p);
                }
                lemma_states(after, states);
            }
            Some(entry.1)
        },
        None => {
            proof {
                assert(!numbers.contains(peer)) by {
                    if numbers.contains(peer) {
                        assert(before[numbers.index_of(peer)].0 == peer);
                    }
                }
                assert(states_of(before).remove(peer) =~= states_of(before));
            }
            None
        },
    }
}

/// Manages all peer connections and the shared audio track. Connections are known by numbers; each
/// new one gets a number that none had before. A peer is active once the exchange with it has ended
/// well, and as long as its connection is not over: one that is disconnected may come back.
pub struct PeerManager {
    peers: Vec<(u64, IceConnectionState)>,
    opening: Vec<(u64, IceConnectionState)>,
    next_peer: u64,
    track: AudioTrack,
}

impl View for PeerManager {
    type V = Set<u64>;

    /// The peers that are currently connected: those whose exchange has ended well, and whose
    /// connection is not over.
    open spec fn view(&self) -> Set<u64> {
        connected(self.states())
    }
}

impl PeerManager {
    /// The peers whose exchange has ended well, each with the last state of its connection.
    pub closed spec fn states(self) -> Map<u64, IceConnectionState> {
        states_of(self.peers@)
    }

    /// The same peers, in the order in which they came.
    pub closed spec fn order(self) -> Seq<u64> {
        numbers_of(self.peers@)
    }

    /// The peers whose exchange goes on, each with the last state of its connection.
    pub closed spec fn opening(self) -> Map<u64, IceConnectionState> {
        states_of(self.opening@)
    }

    /// The number that the next connection gets.
    pub closed spec fn next_number(self) -> u64 {
        self.next_peer
    }

    /// The shared audio track.
    pub closed spec fn shared_track(self) -> AudioTrack {
        self.track
    }

    /// No peer is listed twice.
    pub closed spec fn lists_once(self) -> bool {
        numbers_of(self.peers@).no_duplicates() && numbers_of(self.opening@).no_duplicates()
    }

    /// No peer is listed twice, numbers are not used again, and the track is the one that
    /// listeners expect.
    pub open spec fn wf(self) -> bool {
        &&& self.lists_once()
        &&& self@.finite()
        &&& forall|p: u64| #[trigger] self.states().contains_key(p) ==> p < self.next_number()
        &&& forall|p: u64| #[trigger] self.opening().contains_key(p) ==> p < self.next_number()
            && !self.states().contains_key(p)
        &&& self.shared_track().id@ == "audio"@
        &&& self.shared_track().stream_id@ == "whcanrc-stream"@
        &&& self.shared_track().clock_rate == CLOCK_RATE
        &&& self.shared_track().channels == 1
    }

    /// Starts without peers.
    pub fn new() -> (r: PeerManager)
        ensures
            r.wf(),
            r@ == Set::<u64>::empty(),
            r.states() == Map::<u64, IceConnectionState>::empty(),
            r.order() == Seq::<u64>::empty(),
            r.opening() == Map::<u64, IceConnectionState>::empty(),
            r.next_number() == 0,
    {
        let r = PeerManager {
            peers: Vec::new(),
            opening: Vec::new(),
            next_peer: 0,
            track: AudioTrack {
                id: "audio".to_string(),
                stream_id: "whcanrc-stream".to_string(),
                clock_rate: CLOCK_RATE,
                channels: 1,
            },
        };
        proof {
            assert(r.order() =~= seq![]);
            lemma_states(r.peers@, Map::empty());
            lemma_states(r.opening@, Map::empty());
            assert(r@ =~= Set::empty());
        }
        r
    }

    /// The shared audio track.
    pub fn audio_track(&self) -> (r: &AudioTrack)
        ensures
            *r == self.shared_track(),
    {
        &self.track
    }

    /// Gives a new connection its number. Its exchange begins.
    pub fn open_peer(&mut self) -> (r: u64)
        requires
            old(self).wf(),
            old(self).next_number() < u64::MAX,
        ensures
            final(self).wf(),
            r == old(self).next_number(),
            final(self).next_number() == r + 1,
            final(self).opening() == old(self).opening().insert(r, IceConnectionState::New),
            final(self).states() == old(self).states(),
            final(self).order() == old(self).order(),
            final(self)@ == old(self)@,
            final(self).shared_track() == old(self).shared_track(),
            !old(self).states().contains_key(r),
            !old(self).opening().contains_key(r),
    {
        let r: u64 = self.next_peer;
        assert(!self.states().contains_key(r));
        assert(!self.opening().contains_key(r));
        add_peer(&mut self.opening, r, IceConnectionState::New);
        self.next_peer = r + 1;
        r
    }

    /// Whether [`PeerManager::open_peer`] has a number left.
    pub fn can_open(&self) -> (r: bool)
        ensures
            r == (self.next_number() < u64::MAX),
    {
        self.next_peer < u64::MAX
    }

    /// Ends the exchange with a new peer: with a local description the peer is stored, with the
    /// state that its connection has by now, and the description is the answer. Without one the
    /// exchange has failed.
    pub fn handle_offer(&mut self, peer: u64, local_description: Option<String>) -> (r: Result<
        String,
        String,
    >)
        requires
            old(self).wf(),
            old(self).opening().contains_key(peer),
        ensures
            final(self).wf(),
            final(self).next_number() == old(self).next_number(),
            final(self).shared_track() == old(self).shared_track(),
            final(self).opening() == old(self).opening().remove(peer),
            match local_description {
                Some(sdp) => {
                    let state = old(self).opening()[peer];
                    &&& r == Ok::<String, String>(sdp)
                    &&& final(self).states() == old(self).states().insert(peer, state)
                    &&& final(self).order() == old(self).order().push(peer)
                    &&& final(self)@ == if state.is_over() {
                        old(self)@
                    } else {
                        old(self)@.insert(peer)
                    }
                },
                None => {
                    &&& r matches Err(e) && e@ == "Failed to get local description"@
                    &&& final(self).states() == old(self).states()
                    &&& final(self).order() == old(self).order()
                    &&& final(self)@ == old(self)@
                },
            },
    {
        let state = match remove_peer(&mut self.opening, peer) {
            Some(state) => state,
            None => IceConnectionState::New,
        };
        match local_description {
            Some(sdp) => {
                add_peer(&mut self.peers, peer, state);
                proof {
                    let changed = if state.is_over() {
                        old(self)@
                    } else {
                        old(self)@.insert(peer)
                    };
                    assert(self@ =~= changed);
                }
                Ok(sdp)
            },
            None => Err("Failed to get local description".to_string()),
        }
    }

    /// Takes note of the state of a peer's connection. A stored peer is active exactly if its
    /// connection is not over; this changes nothing about any other peer. Returns whether the
    /// connection has failed or is closed, so that it can be let go (see
    /// [`PeerManager::release`]).
    pub fn connection_state_changed(&mut self, peer: u64, state: IceConnectionState) -> (r: bool)
        requires
            old(self).wf(),
        ensures
            final(self).wf(),
            final(self).next_number() == old(self).next_number(),
            final(self).shared_track() == old(self).shared_track(),
            final(self).states() == with_state(old(self).states(), peer, state),
            final(self).opening() == with_state(old(self).opening(), peer, state),
            final(self).order() == old(self).order(),
            final(self)@ == if old(self).states().contains_key(peer) && !state.is_over() {
                old(self)@.insert(peer)
            } else {
                old(self)@.remove(peer)
            },
            r == (state is Failed || state is Closed),
    {
        set_peer_state(&mut self.peers, peer, state);
        set_peer_state(&mut self.opening, peer, state);
        proof {
            let changed = if old(self).states().contains_key(peer) && !state.is_over() {
                old(self)@.insert(peer)
            } else {
                old(self)@.remove(peer)
            };
            assert(self@ =~= changed);
            assert forall|p: u64| #[trigger] self.opening().contains_key(p) implies old(
                self,
            ).opening().contains_key(p) by {}
        }
        match state {
            IceConnectionState::Failed | IceConnectionState::Closed => true,
            _ => false,
        }
    }

    /// Forgets a stored peer whose connection was let go: nothing more will be heard of it.
    pub fn release(&mut self, peer: u64)
        requires
            old(self).wf(),
        ensures
            final(self).wf(),
            final(self).next_number() == old(self).next_number(),
            final(self).shared_track() == old(self).shared_track(),
            final(self).states() == old(self).states().remove(peer),
            final(self).opening() == old(self).opening(),
            final(self).order() == without(old(self).order(), peer),
            final(self)@ == old(self)@.remove(peer),
    {
        let _ = remove_peer(&mut self.peers, peer);
        assert(self@ =~= old(self)@.remove(peer));
        assert(self.opening() == old(self).opening());
    }

    /// The number of peers that are currently connected.
    pub fn peer_count(&self) -> (r: usize)
        requires
            self.wf(),
        ensures
            r == self@.len(),
    {
        let n: usize = self.peers.len();
        let mut count: usize = 0;
        let mut i: usize = 0;
        let ghost mut counted: Set<u64> = Set::empty();
        while i < n
            invariant
                n == self.peers@.len(),
                i <= n,
                count <= i,
                numbers_of(self.peers@).no_duplicates(),
                counted.finite(),
                counted.len() == count,
                forall|p: u64| #[trigger]
                    counted.contains(p) <==> exists|j: int|
                        0 <= j < i && (#[trigger] self.peers@[j]).0 == p
                            && !self.peers@[j].1.is_over(),
            decreases n - i,
        {
            let ghost before = counted;
            let ghost entry = self.peers@[i as int];
            if !self.peers[i].1.over() {
                proof {
                    if before.contains(entry.0) {
                        let j = choose|j: int|
                            0 <= j < i && (#[trigger] self.peers@[j]).0 == entry.0
                                && !self.peers@[j].1.is_over();
                        assert(numbers_of(self.peers@)[j] == numbers_of(self.peers@)[i as int]);
                    }
                    counted = counted.insert(entry.0);
                }
                count += 1;
            }
            proof {
                assert forall|p: u64| #[trigger]
                    counted.contains(p) <==> exists|j: int|
                        0 <= j < i + 1 && (#[trigger] self.peers@[j]).0 == p
                            && !self.peers@[j].1.is_over() by {
                    if before.contains(p) {
                        let j = choose|j: int|
                            0 <= j < i && (#[trigger] self.peers@[j]).0 == p
                                && !self.peers@[j].1.is_over();
                        assert(self.peers@[j].0 == p);
                    }
                    if p == entry.0 && !entry.1.is_over() {
                        assert(self.peers@[i as int].0 == p);
                    }
                }
            }
            i += 1;
        }
        proof {
            assert forall|p: u64| counted.contains(p) <==> self@.contains(p) by {
                if counted.contains(p) {
                    let j = choose|j: int|
                        0 <= j < n && (#[trigger] self.peers@[j]).0 == p
                            && !self.peers@[j].1.is_over();
                    lemma_entry(self.peers@, j);
                }
                if self@.contains(p) {
                    assert(is_listed(self.peers@, p));
                    let j = choose|j: int| 0 <= j < n && (#[trigger] self.peers@[j]).0 == p;
                    lemma_entry(self.peers@, j);
                }
            }
            assert(counted =~= self@);
        }
        count
    }

    /// Forgets all stored peers, and returns them in order so that their connections can be closed.
    pub fn close_all(&mut self) -> (r: Vec<u64>)
        requires
            old(self).wf(),
        ensures
            final(self).wf(),
            final(self).next_number() == old(self).next_number(),
            final(self).shared_track() == old(self).shared_track(),
            final(self).opening() == old(self).opening(),
            final(self).states() == Map::<u64, IceConnectionState>::empty(),
            final(self).order() == Seq::<u64>::empty(),
            final(self)@ == Set::<u64>::empty(),
            r@ == old(self).order(),
            r@.no_duplicates(),
            forall|p: u64| #[trigger] r@.contains(p) <==> old(self).states().contains_key(p),
    {
        let mut r: Vec<u64> = Vec::new();
        let n: usize = self.peers.len();
        let mut i: usize = 0;
        while i < n
            invariant
                n == self.peers@.len(),
                i <= n,
                *self == *old(self),
                r@ == numbers_of(self.peers@).take(i as int),
            decreases n - i,
        {
            r.push(self.peers[i].0);
            assert(r@ =~= numbers_of(self.peers@).take(i + 1));
            i += 1;
        }
        assert(r@ =~= numbers_of(self.peers@));
        self.peers = Vec::new();
        proof {
            let list = old(self).peers@;
            assert forall|p: u64| #[trigger] r@.contains(p) <==> is_listed(list, p) by {
                if r@.contains(p) {
                    assert(list[r@.index_of(p)].0 == p);
                }
                if is_listed(list, p) {
                    let j = choose|j: int| 0 <= j < list.len() && (#[trigger] list[j]).0 == p;
                    assert(r@[j] == p);
                }
            }
            assert(self.order() =~= seq![]);
            lemma_states(self.peers@, Map::empty());
            assert(self@ =~= Set::empty());
            assert(self.opening() == old(self).opening());
        }
        r
    }
}

/// The states after a run of changes, each of one peer's connection.
pub open spec fn after_changes(
    states: Map<u64, IceConnectionState>,
    changes: Seq<(u64, IceConnectionState)>,
) -> Map<u64, IceConnectionState>
    decreases changes.len(),
{
    if changes.len() == 0 {
        states
    } else {
        let last = changes.last();
        with_state(after_changes(states, changes.drop_last()), last.0, last.1)
    }
}

/// The state of a peer's connection after a run of changes: the last one that is its own.
pub open spec fn current_state(
    start: IceConnectionState,
    changes: Seq<(u64, IceConnectionState)>,
    peer: u64,
) -> IceConnectionState
    decreases changes.len(),
{
    if changes.len() == 0 {
        start
    } else if changes.last().0 == peer {
        changes.last().1
    } else {
        current_state(start, changes.drop_last(), peer)
    }
}

/// Whatever happened to the connections, the active peers are the stored ones whose current state
/// is none of those in which a connection is over. A peer that was disconnected and is connected
/// again is active again, and what happens to one peer changes nothing about another.
pub proof fn current_states_decide(
    states: Map<u64, IceConnectionState>,
    changes: Seq<(u64, IceConnectionState)>,
    peer: u64,
)
    ensures
        after_changes(states, changes).contains_key(peer) <==> states.contains_key(peer),
        states.contains_key(peer) ==> after_changes(states, changes)[peer] == current_state(
            states[peer],
            changes,
            peer,
        ),
        connected(after_changes(states, changes)).contains(peer) <==> states.contains_key(peer)
            && !current_state(states[peer], changes, peer).is_over(),
    decreases changes.len(),
{
    if changes.len() > 0 {
        current_states_decide(states, changes.drop_last(), peer);
    }
}

/// The steps of the exchange with a new peer.
#[derive(Debug, Clone, Copy, PartialEq, Eq, Structural)]
pub enum OfferStage {
    /// Create the connection.
    Connect,
    /// Add the audio track to it.
    AddTrack,
    /// Set the offer as its remote description.
    SetRemote,
    /// Create an answer.
    CreateAnswer,
    /// Set the answer as its local description, which starts the gathering of candidates.
    SetLocal,
    /// Wait for the gathering to end, for a limited time.
    Gather,
    /// Read the local description, which now holds the candidates.
    ReadLocal,
}

/// What to do after a step.
#[derive(Debug, Clone, Copy, PartialEq, Eq, Structural)]
pub enum OfferStep {
    /// Go on with this step.
    Continue(OfferStage),
    /// The peer becomes active.
    Store,
    /// The exchange has failed.
    Abort,
}

/// How long to wait for the gathering of candidates, in seconds.
pub const GATHER_TIMEOUT_SECS: u64 = 5;

impl OfferStage {
    /// What follows this step. It does not matter whether the gathering ended in time; any other
    /// step that fails is the end.
    pub open spec fn following(self, succeeded: bool) -> OfferStep {
        match self {
            OfferStage::Gather => OfferStep::Continue(OfferStage::ReadLocal),
            _ => if !succeeded {
                OfferStep::Abort
            } else {
                match self {
                    OfferStage::Connect => OfferStep::Continue(OfferStage::AddTrack),
                    OfferStage::AddTrack => OfferStep::Continue(OfferStage::SetRemote),
                    OfferStage::SetRemote => OfferStep::Continue(OfferStage::CreateAnswer),
                    OfferStage::CreateAnswer => OfferStep::Continue(OfferStage::SetLocal),
                    OfferStage::SetLocal => OfferStep::Continue(OfferStage::Gather),
                    _ => OfferStep::Store,
                }
            },
        }
    }

    /// Decides what follows this step.
    pub fn next(self, succeeded: bool) -> (r: OfferStep)
        ensures
            r == self.following(succeeded),
    {
        match self {
            OfferStage::Gather => OfferStep::Continue(OfferStage::ReadLocal),
            _ => {
                if !succeeded {
                    OfferStep::Abort
                } else {
                    match self {
                        OfferStage::Connect => OfferStep::Continue(OfferStage::AddTrack),
                        OfferStage::AddTrack => OfferStep::Continue(OfferStage::SetRemote),
                        OfferStage::SetRemote => OfferStep::Continue(OfferStage::CreateAnswer),
                        OfferStage::CreateAnswer => OfferStep::Continue(OfferStage::SetLocal),
                        OfferStage::SetLocal => OfferStep::Continue(OfferStage::Gather),
                        _ => OfferStep::Store,
                    }
                }
            },
        }
    }

    /// How many steps are left, this one counted.
    pub open spec fn steps_left(self) -> nat {
        match self {
            OfferStage::Connect => 7,
            OfferStage::AddTrack => 6,
            OfferStage::SetRemote => 5,
            OfferStage::CreateAnswer => 4,
            OfferStage::SetLocal => 3,
            OfferStage::Gather => 2,
            OfferStage::ReadLocal => 1,
        }
    }

    /// Whether the exchange ends with an active peer, when it is at this step and every step ends
    /// as `succeeds` says.
    pub open spec fn ends_well(self, succeeds: spec_fn(OfferStage) -> bool) -> bool
        decreases self.steps_left(),
    {
        match self.following(succeeds(self)) {
            OfferStep::Continue(stage) => stage.ends_well(succeeds),
            OfferStep::Store => true,
            OfferStep::Abort => false,
        }
    }
}

/// The exchange ends, and it ends with an active peer exactly when no step but the gathering of
/// candidates fails.
pub proof fn exchange_needs_every_step_but_gathering(succeeds: spec_fn(OfferStage) -> bool)
    ensures
        OfferStage::Connect.ends_well(succeeds) <==> {
            &&& succeeds(OfferStage::Connect)
            &&& succeeds(OfferStage::AddTrack)
            &&& succeeds(OfferStage::SetRemote)
            &&& succeeds(OfferStage::CreateAnswer)
            &&& succeeds(OfferStage::SetLocal)
            &&& succeeds(OfferStage::ReadLocal)
        },
{
    reveal_with_fuel(OfferStage::ends_well, 8);
}

/// In normal mode the buffer takes up the audio as it comes: what was there stays, and behind it
/// stands every sample of the chunk, unchanged and in order. No chirp is injected.
pub proof fn normal_mode_keeps_the_audio(buffer: Seq<i16>, samples: Seq<i16>, seen: u64, k: int)
    ensures
        buffered(buffer, samples, None, seen).len() == buffer.len() + samples.len(),
        0 <= k < buffer.len() ==> buffered(buffer, samples, None, seen)[k] == buffer[k],
        0 <= k < samples.len() ==> buffered(buffer, samples, None, seen)[buffer.len() + k]
            == samples[k],
        seen_after(buffer, samples.len(), None, seen) == seen,
        !injects(buffer, samples.len(), None, seen),
{
}

/// In test mode the buffer takes up silence. If a chirp is due and no longer than what is then
/// buffered, it stands at the very end, and its generation is the last one seen; otherwise nothing
/// else changes.
pub proof fn test_mode_puts_the_chirp_last(
    buffer: Seq<i16>,
    samples: Seq<i16>,
    state: &ChirpState<i16>,
    seen: u64,
    k: int,
)
    requires
        0 <= k < buffer.len() + samples.len(),
    ensures
        ({
            let after = buffered(buffer, samples, Some(state), seen);
            let chirp = state.waveform();
            let from = buffer.len() + samples.len() - chirp.len();
            let now = state.generation() > seen && from >= 0;
            &&& after.len() == buffer.len() + samples.len()
            &&& now && k >= from ==> after[k] == chirp[k - from]
            &&& !(now && k >= from) && k < buffer.len() ==> after[k] == buffer[k]
            &&& !(now && k >= from) && k >= buffer.len() ==> after[k] == 0
            &&& now ==> seen_after(buffer, samples.len(), Some(state), seen) == state.generation()
            &&& !now ==> seen_after(buffer, samples.len(), Some(state), seen) == seen
        }),
{
}

/// A frame has 48 samples for each millisecond.
pub proof fn frame_lasts_its_milliseconds(frame_ms: nat)
    ensures
        frame_samples(frame_ms) == 48 * frame_ms,
{
}

/// Intervals are added up, each once.
pub proof fn intervals_are_added_up(a: Seq<u64>, b: Seq<u64>, x: u64)
    ensures
        total(Seq::<u64>::empty()) == 0,
        total(seq![x]) == x,
        total(a + b) == total(a) + total(b),
    decreases b.len(),
{
    reveal_with_fuel(total, 2);
    assert(seq![x].drop_last() =~= seq![]);
    if b.len() == 0 {
        assert(a + b =~= a);
    } else {
        intervals_are_added_up(a, b.drop_last(), x);
        assert((a + b).drop_last() =~= a + b.drop_last());
    }
}

/// The least and the greatest interval are among the intervals.
pub proof fn least_and_greatest_occur(intervals: Seq<u64>)
    requires
        intervals.len() > 0,
    ensures
        intervals.contains(least(intervals)),
        intervals.contains(greatest(intervals)),
    decreases intervals.len(),
{
    let front = intervals.drop_last();
    let last = intervals.len() - 1;
    assert(intervals[last] == intervals.last());
    if front.len() > 0 {
        least_and_greatest_occur(front);
        let i = front.index_of(least(front));
        let j = front.index_of(greatest(front));
        assert(intervals[i] == least(front) && intervals[j] == greatest(front));
    } else {
        assert(least(front) == u64::MAX && greatest(front) == 0);
        assert(intervals[0] == intervals.last());
    }
}

/// A peer is active exactly if it is stored and the last state of its connection is none of
/// disconnected, failed and closed.
pub proof fn active_peers_have_a_connection(states: Map<u64, IceConnectionState>, peer: u64)
    ensures
        connected(states).contains(peer) <==> {
            &&& states.contains_key(peer)
            &&& states[peer] != IceConnectionState::Disconnected
            &&& states[peer] != IceConnectionState::Failed
            &&& states[peer] != IceConnectionState::Closed
        },
{
}

/// A change of one peer's state is kept for that peer, if it is known, and touches no other.
pub proof fn change_is_kept_for_its_peer(
    states: Map<u64, IceConnectionState>,
    peer: u64,
    state: IceConnectionState,
    other: u64,
)
    ensures
        with_state(states, peer, state).contains_key(other) <==> states.contains_key(other),
        states.contains_key(peer) ==> with_state(states, peer, state)[peer] == state,
        other != peer && states.contains_key(other) ==> with_state(states, peer, state)[other]
            == states[other],
{
}

/// Letting a peer go takes it out of the order and leaves the others in theirs.
pub proof fn released_peer_leaves_the_order(a: Seq<u64>, b: Seq<u64>, peer: u64)
    requires
        !a.contains(peer),
        !b.contains(peer),
    ensures
        without(a + seq![peer] + b, peer) == a + b,
        without(a, peer) == a,
{
    let all = a + seq![peer] + b;
    assert(all[a.len() as int] == peer);
    let i = all.index_of(peer);
    assert(i == a.len()) by {
        if i < a.len() {
            assert(a[i] == peer);
        } else if i > a.len() {
            assert(b[i - a.len() - 1] == peer);
        }
    }
    assert(all.remove(i) =~= a + b);
}

/// The exchange takes its steps in one order: connect, add the track, set the offer, answer it, set
/// the answer, gather candidates, and read what has come of it. Only the gathering may fail.
pub proof fn exchange_takes_its_steps_in_order(ok: bool)
    ensures
        OfferStage::Connect.following(true) == OfferStep::Continue(OfferStage::AddTrack),
        OfferStage::AddTrack.following(true) == OfferStep::Continue(OfferStage::SetRemote),
        OfferStage::SetRemote.following(true) == OfferStep::Continue(OfferStage::CreateAnswer),
        OfferStage::CreateAnswer.following(true) == OfferStep::Continue(OfferStage::SetLocal),
        OfferStage::SetLocal.following(true) == OfferStep::Continue(OfferStage::Gather),
        OfferStage::Gather.following(ok) == OfferStep::Continue(OfferStage::ReadLocal),
        OfferStage::ReadLocal.following(true) == OfferStep::Store,
        forall|stage: OfferStage|
            stage != OfferStage::Gather ==> #[trigger] stage.following(false) == OfferStep::Abort,
{
}

} // verus!
