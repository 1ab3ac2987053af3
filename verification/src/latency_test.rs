//! Round-trip latency measurement: a chirp is injected into the outgoing audio, and its return
//! through the microphone is timed.
use vstd::prelude::*;
use vstd::slice::slice_subrange;

use crate::audio::{follows_wave, hear, sample_wave, AudioEvent, Heard};

verus! {

/// The number of samples in a chirp: 2 ms.
pub open spec fn chirp_length(sample_rate: u32) -> nat {
    (sample_rate / 500) as nat
}

/// Generates a 2 ms chirp at the given sample rate. `wave` is the sweep: it gives the sample at
/// each position.
pub fn generate_chirp<S, W: Fn(usize) -> S>(sample_rate: u32, wave: &W) -> (r: Vec<S>)
    requires
        forall|at: usize| at < chirp_length(sample_rate) ==> #[trigger] call_requires(*wave, (at,)),
    ensures
        r@.len() == chirp_length(sample_rate),
        follows_wave(r@, 0, *wave),
{
    sample_wave(0, (sample_rate / 500) as usize, wave)
}

/// Microseconds in the given time, as a 64-bit counter shows them.
pub open spec fn micros(secs: nat, nanos: nat) -> nat {
    (secs * 1_000_000 + nanos / 1_000) % 0x1_0000_0000_0000_0000
}

/// Shared state between chirp injector (in encoders) and detector (mic listener).
///
/// It uses a generation counter so that several encoders can each tell when a new chirp should be
/// injected.
#[derive(Debug)]
pub struct ChirpState<S> {
    pub chirp_waveform: Vec<S>,
    /// Microseconds since the start when the last chirp was armed.
    last_chirp_send: u64,
    /// Goes up by one each time a chirp is armed. Encoders compare it with a counter of their own.
    generation: u64,
}

/// Whether an encoder that has last seen the generation `seen` is to inject a chirp.
pub open spec fn inject_due(generation: u64, seen: u64) -> bool {
    generation > seen
}

/// The generation that follows; the counter starts again behind its largest value.
pub open spec fn next_generation(generation: u64) -> u64 {
    if generation == u64::MAX {
        0
    } else {
        (generation + 1) as u64
    }
}

impl<S> ChirpState<S> {
    /// The samples of the chirp.
    pub closed spec fn waveform(self) -> Seq<S> {
        self.chirp_waveform@
    }

    /// The number of times that a chirp was armed, as the counter shows it.
    pub closed spec fn generation(self) -> u64 {
        self.generation
    }

    /// When the last chirp was armed.
    pub closed spec fn armed_at(self) -> u64 {
        self.last_chirp_send
    }

    /// Generates the chirp. Nothing is armed yet.
    pub fn new<W: Fn(usize) -> S>(sample_rate: u32, wave: &W) -> (r: ChirpState<S>)
        requires
            forall|at: usize|
                at < chirp_length(sample_rate) ==> #[trigger] call_requires(*wave, (at,)),
        ensures
            r.waveform().len() == chirp_length(sample_rate),
            follows_wave(r.waveform(), 0, *wave),
            r.generation() == 0,
            r.armed_at() == 0,
    {
        ChirpState {
            chirp_waveform: generate_chirp(sample_rate, wave),
            last_chirp_send: 0,
            generation: 0,
        }
    }

    /// Arms the next chirp, at the time `now_micros`.
    pub fn arm(&mut self, now_micros: u64)
        ensures
            final(self).generation() == next_generation(old(self).generation()),
            final(self).armed_at() == now_micros,
            final(self).waveform() == old(self).waveform(),
    {
        self.last_chirp_send = now_micros;
        self.generation = self.generation.wrapping_add(1);
    }

    /// Whether an encoder is to inject a chirp now. `last_gen` is the encoder's own counter; it is
    /// brought up to date.
    pub fn should_inject(&self, last_gen: &mut u64) -> (r: bool)
        ensures
            r == inject_due(self.generation(), *old(last_gen)),
            *final(last_gen) == if r {
                self.generation()
            } else {
                *old(last_gen)
            },
    {
        if self.generation > *last_gen {
            *last_gen = self.generation;
            true
        } else {
            false
        }
    }

    /// The samples of the chirp.
    pub fn chirp(&self) -> (r: &[S])
        ensures
            r@ == self.waveform(),
    {
        self.chirp_waveform.as_slice()
    }

    /// When the last chirp was armed.
    pub fn last_send_micros(&self) -> (r: u64)
        ensures
            r == self.armed_at(),
    {
        self.last_chirp_send
    }

    /// The time on the clock of this measurement, `elapsed` seconds and nanoseconds after its
    /// start.
    pub fn now_micros(&self, elapsed_secs: u64, elapsed_nanos: u32) -> (r: u64)
        ensures
            r == micros(elapsed_secs as nat, elapsed_nanos as nat),
    {
        let total: u128 = elapsed_secs as u128 * 1_000_000 + (elapsed_nanos / 1_000) as u128;
        (total % 0x1_0000_0000_0000_0000) as u64
    }
}

/// The number of places at which a chirp fits into a run of samples. An empty chirp, which nobody
/// can hear, fits nowhere.
pub open spec fn offset_count(samples: nat, chirp: nat) -> nat {
    if chirp == 0 || samples < chirp {
        0
    } else {
        (samples - chirp + 1) as nat
    }
}

/// Whether `score` may give `value` to the samples that a chirp at place `at` would cover.
pub open spec fn scored<S, C: Fn(&[S], &[S]) -> u32>(
    samples: Seq<S>,
    chirp: Seq<S>,
    score: C,
    at: int,
    value: u32,
) -> bool {
    exists|w: &[S], c: &[S]|
        {
            &&& #[trigger] call_ensures(score, (w, c), value)
            &&& w@ == samples.subrange(at, at + chirp.len())
            &&& c@ == chirp
        }
}

/// Whether `scores` may be what `score` gives to all places at which the chirp fits.
pub open spec fn all_scored<S, C: Fn(&[S], &[S]) -> u32>(
    samples: Seq<S>,
    chirp: Seq<S>,
    score: C,
    scores: Seq<u32>,
) -> bool {
    &&& scores.len() == offset_count(samples.len(), chirp.len())
    &&& forall|i: int|
        0 <= i < scores.len() ==> scored(samples, chirp, score, i, #[trigger] scores[i])
}

/// Whether `at` is the first place of the largest score.
pub open spec fn is_first_peak(scores: Seq<u32>, at: int) -> bool {
    &&& 0 <= at < scores.len()
    &&& forall|j: int| 0 <= j < at ==> #[trigger] scores[j] < scores[at]
    &&& forall|j: int| 0 <= j < scores.len() ==> #[trigger] scores[j] <= scores[at]
}

/// Whether the chirp may be found at place `at`: the first place of the largest score, which is
/// above the threshold.
pub open spec fn detects<S, C: Fn(&[S], &[S]) -> u32>(
    samples: Seq<S>,
    chirp: Seq<S>,
    score: C,
    threshold: i64,
    at: int,
) -> bool {
    exists|scores: Seq<u32>|
        {
            &&& #[trigger] all_scored(samples, chirp, score, scores)
            &&& is_first_peak(scores, at)
            &&& scores[at] > threshold
        }
}

/// Whether the chirp may be found nowhere: no score is above the threshold.
pub open spec fn misses<S, C: Fn(&[S], &[S]) -> u32>(
    samples: Seq<S>,
    chirp: Seq<S>,
    score: C,
    threshold: i64,
) -> bool {
    exists|scores: Seq<u32>|
        {
            &&& #[trigger] all_scored(samples, chirp, score, scores)
            &&& forall|j: int| 0 <= j < scores.len() ==> #[trigger] scores[j] <= threshold
        }
}

/// Whether `score` can be called on any two runs of the same length.
pub open spec fn scores_any<S, C: Fn(&[S], &[S]) -> u32>(score: C) -> bool {
    forall|w: &[S], c: &[S]| w@.len() == c@.len() ==> #[trigger] call_requires(score, (w, c))
}

/// Scores all places at which the chirp fits.
fn score_places<S, C: Fn(&[S], &[S]) -> u32>(samples: &[S], chirp: &[S], score: &C) -> (r: Vec<u32>)
    requires
        scores_any(*score),
    ensures
        all_scored(samples@, chirp@, *score, r@),
{
    let n: usize = samples.len();
    let k: usize = chirp.len();
    let mut r: Vec<u32> = Vec::new();
    if k == 0 || n < k {
        return r;
    }
    let count: usize = n - k + 1;
    let mut at: usize = 0;
    while at < count
        invariant
            n == samples@.len(),
            k == chirp@.len(),
            0 < k <= n,
            count == n - k + 1,
            at <= count,
            r@.len() == at,
            scores_any(*score),
            forall|i: int|
                0 <= i < at ==> scored(samples@, chirp@, *score, i, #[trigger] r@[i]),
        decreases count - at,
    {
        let w = slice_subrange(samples, at, at + k);
        let value: u32 = score(w, chirp);
        assert(scored(samples@, chirp@, *score, at as int, value));
        r.push(value);
        at += 1;
    }
    r
}

/// Finds the place at which the chirp starts: the first place of the largest score, if that score
/// is above the threshold. A chirp without energy is not looked for.
///
/// `score` gives the normalized correlation of two runs of samples. A correlation above zero is
/// given as the bits of its floating point number, which order as the numbers do, and any other as
/// zero. So is the threshold, but for a threshold below zero, which is any number below zero.
pub fn detect_chirp<S, C: Fn(&[S], &[S]) -> u32>(
    samples: &[S],
    chirp: &[S],
    has_energy: bool,
    threshold: i64,
    score: &C,
) -> (r: Option<usize>)
    requires
        scores_any(*score),
    ensures
        match r {
            Some(at) => {
                &&& has_energy
                &&& detects(samples@, chirp@, *score, threshold, at as int)
                &&& at < offset_count(samples@.len(), chirp@.len())
            },
            None => !has_energy || misses(samples@, chirp@, *score, threshold),
        },
{
    if !has_energy {
        return None;
    }
    first_peak(&score_places(samples, chirp, score), threshold)
}

/// Finds the first place of the largest score, if that score is above the threshold.
pub fn first_peak(scores: &Vec<u32>, threshold: i64) -> (r: Option<usize>)
    ensures
        match r {
            Some(at) => is_first_peak(scores@, at as int) && scores@[at as int] > threshold,
            None => forall|j: int| 0 <= j < scores@.len() ==> #[trigger] scores@[j] <= threshold,
        },
{
    let n: usize = scores.len();
    if n == 0 {
        return None;
    }
    let mut best: u32 = scores[0];
    let mut best_offset: usize = 0;
    let mut i: usize = 1;
    while i < n
        invariant
            n == scores@.len(),
            1 <= i <= n,
            best_offset < i,
            scores@[best_offset as int] == best,
            forall|j: int| 0 <= j < i ==> #[trigger] scores@[j] <= best,
            forall|j: int| 0 <= j < best_offset ==> #[trigger] scores@[j] < best,
        decreases n - i,
    {
        if scores[i] > best {
            best = scores[i];
            best_offset = i;
        }
        i += 1;
    }
    if best as i64 > threshold {
        Some(best_offset)
    } else {
        None
    }
}

/// The correlation above which a chirp counts as detected: one half, as the bits of a floating
/// point number. It avoids false positives from noise.
pub const DETECTION_THRESHOLD: i64 = 0x3F00_0000;

/// The least time between two detections that count, in microseconds.
pub const COOLDOWN_MICROS: u64 = 500_000;

/// The difference, or zero where it would be negative.
pub open spec fn minus(a: int, b: int) -> int {
    if a < b {
        0
    } else {
        a - b
    }
}

/// The time from the start of a chunk to its sample with number `offset`, in microseconds.
pub open spec fn offset_micros(offset: nat, sample_rate: nat) -> nat
    recommends
        sample_rate > 0,
{
    offset * 1_000_000 / sample_rate
}

/// The round-trip latency of a chirp that was sent at `last_send` and starts at sample `offset` of a
/// chunk which arrived at `now`, in microseconds; zero where it would be negative.
pub open spec fn round_trip(now: u64, last_send: u64, offset: nat, sample_rate: u32) -> int {
    minus(
        minus(now as int, last_send as int),
        offset_micros(offset, sample_rate as nat) as int,
    )
}

/// Whether a detection at the time `now` counts, given when the last one was that did.
pub open spec fn is_counted(last_detection: u64, now: u64, last_send: u64) -> bool {
    last_send > 0 && minus(now as int, last_detection as int) > COOLDOWN_MICROS
}

/// What to do about an event of the audio channel.
#[derive(Debug, Clone, Copy, PartialEq, Eq, Structural)]
pub enum DetectorAction {
    /// Wait for the next event.
    Wait,
    /// Report this round-trip latency in microseconds.
    Report(u64),
    /// End the detector.
    Stop,
}

/// Times the chirps that come back.
#[derive(Debug)]
pub struct ChirpDetector {
    last_detection_micros: u64,
}

impl ChirpDetector {
    /// When the last detection was counted; zero before the first one.
    pub closed spec fn last_detection(self) -> u64 {
        self.last_detection_micros
    }

    /// Starts without any detection.
    pub fn new() -> (r: ChirpDetector)
        ensures
            r.last_detection() == 0,
    {
        ChirpDetector { last_detection_micros: 0 }
    }

    /// Whether a detection at the time `now` counts: a chirp was sent, and the last detection that
    /// counted is longer ago than the cooldown.
    pub open spec fn counts(self, now: u64, last_send: u64) -> bool {
        is_counted(self.last_detection(), now, last_send)
    }

    /// Decides [`ChirpDetector::counts`].
    pub fn would_count(&self, now: u64, last_send: u64) -> (r: bool)
        ensures
            r == self.counts(now, last_send),
    {
        last_send > 0 && now.saturating_sub(self.last_detection_micros) > COOLDOWN_MICROS
    }

    /// Takes note of a chirp that starts at sample `offset` of a chunk which arrived at the time
    /// `now`, and returns the round-trip latency in microseconds if the detection counts.
    pub fn detected(&mut self, offset: usize, now: u64, last_send: u64, sample_rate: u32) -> (r:
        Option<u64>)
        requires
            old(self).counts(now, last_send) ==> sample_rate > 0,
        ensures
            match r {
                Some(latency) => {
                    &&& old(self).counts(now, last_send)
                    &&& latency == round_trip(now, last_send, offset as nat, sample_rate)
                    &&& final(self).last_detection() == now
                },
                None => !old(self).counts(now, last_send) && *final(self) == *old(self),
            },
    {
        if self.would_count(now, last_send) {
            let into_chunk: u128 = (offset as u128 * 1_000_000) / sample_rate as u128;
            let since: u64 = now.saturating_sub(last_send);
            self.last_detection_micros = now;
            if (since as u128) < into_chunk {
                Some(0)
            } else {
                Some((since as u128 - into_chunk) as u64)
            }
        } else {
            None
        }
    }

    /// What to do about an event of the audio channel: a chirp in the samples that counts is
    /// reported, chunks without one, empty and lost chunks are passed over, and only the end of the
    /// audio is the end of the detector.
    ///
    /// The chirp is looked for as [`detect_chirp`] does. `clock` is read when one was found; it
    /// gives the time and when the last chirp was sent.
    pub fn on_event<S, C: Fn(&[S], &[S]) -> u32, T: Fn() -> (u64, u64)>(
        &mut self,
        event: AudioEvent<S>,
        chirp: &[S],
        has_energy: bool,
        threshold: i64,
        score: &C,
        clock: &T,
    ) -> (r: DetectorAction)
        requires
            scores_any(*score),
            call_requires(*clock, ()),
            event matches AudioEvent::Chunk(chunk) ==> forall|at: int, time: (u64, u64)|
                has_energy && #[trigger] detects(chunk.samples@, chirp@, *score, threshold, at)
                    && #[trigger] call_ensures(*clock, (), time) && old(self).counts(time.0, time.1)
                    ==> chunk.sample_rate > 0,
        ensures
            match event {
                AudioEvent::Chunk(chunk) => match r {
                    DetectorAction::Report(latency) => {
                        &&& chunk.samples@.len() > 0
                        &&& has_energy
                        &&& exists|at: int, time: (u64, u64)|
                            {
                                &&& #[trigger] detects(
                                    chunk.samples@,
                                    chirp@,
                                    *score,
                                    threshold,
                                    at,
                                )
                                &&& #[trigger] call_ensures(*clock, (), time)
                                &&& old(self).counts(time.0, time.1)
                                &&& latency == round_trip(
                                    time.0,
                                    time.1,
                                    at as nat,
                                    chunk.sample_rate,
                                )
                                &&& final(self).last_detection() == time.0
                            }
                    },
                    DetectorAction::Wait => {
                        &&& chunk.samples@.len() == 0 || !has_energy || misses(
                            chunk.samples@,
                            chirp@,
                            *score,
                            threshold,
                        ) || exists|time: (u64, u64)| #[trigger]
                            call_ensures(*clock, (), time) && !old(self).counts(time.0, time.1)
                        &&& *final(self) == *old(self)
                    },
                    DetectorAction::Stop => false,
                },
                AudioEvent::Lagged(_) => r is Wait && *final(self) == *old(self),
                AudioEvent::Closed => r is Stop && *final(self) == *old(self),
            },
    {
        match hear(event) {
            Heard::Samples(chunk) => {
                match detect_chirp(chunk.samples.as_slice(), chirp, has_energy, threshold, score) {
                    Some(offset) => {
                        let time: (u64, u64) = clock();
                        assert(detects(chunk.samples@, chirp@, *score, threshold, offset as int));
                        assert(call_ensures(*clock, (), time));
                        match self.detected(offset, time.0, time.1, chunk.sample_rate) {
                            Some(latency) => DetectorAction::Report(latency),
                            None => DetectorAction::Wait,
                        }
                    },
                    None => DetectorAction::Wait,
                }
            },
            Heard::Nothing => DetectorAction::Wait,
            Heard::End => DetectorAction::Stop,
        }
    }
}

/// An armed chirp is injected by every encoder that has kept up, once each: an encoder that has
/// seen no generation past the one before injects, and then not again until the next arming.
pub proof fn each_encoder_injects_once(generation: u64, seen: u64)
    requires
        seen <= generation < u64::MAX,
    ensures
        inject_due(next_generation(generation), seen),
        !inject_due(next_generation(generation), next_generation(generation)),
{
}

/// What happens between the timer and one encoder.
pub enum ChirpStep {
    /// The timer arms a chirp.
    Arm,
    /// The encoder asks whether to inject.
    Ask,
}

/// The number of steps that arm a chirp.
pub open spec fn armings(steps: Seq<ChirpStep>) -> nat
    decreases steps.len(),
{
    if steps.len() == 0 {
        0
    } else {
        armings(steps.drop_last()) + if steps.last() is Arm {
            1nat
        } else {
            0nat
        }
    }
}

/// The counters of the timer and the encoder after the steps, and how often the encoder injected.
pub open spec fn after_steps(steps: Seq<ChirpStep>) -> (u64, u64, nat)
    decreases steps.len(),
{
    if steps.len() == 0 {
        (0, 0, 0)
    } else {
        let (generation, seen, injected) = after_steps(steps.drop_last());
        match steps.last() {
            ChirpStep::Arm => (next_generation(generation), seen, injected),
            ChirpStep::Ask => if inject_due(generation, seen) {
                (generation, generation, injected + 1)
            } else {
                (generation, seen, injected)
            },
        }
    }
}

/// However often an encoder asks, it never injects more chirps than were armed; and whenever it
/// has just asked, it has injected for the last arming.
pub proof fn never_more_chirps_than_armings(steps: Seq<ChirpStep>)
    requires
        armings(steps) < u64::MAX,
    ensures
        after_steps(steps).2 <= armings(steps),
        after_steps(steps).0 == armings(steps),
        after_steps(steps).2 <= after_steps(steps).1 <= after_steps(steps).0,
        steps.len() > 0 && steps.last() is Ask ==> after_steps(steps).1 == after_steps(steps).0,
    decreases steps.len(),
{
    if steps.len() > 0 {
        never_more_chirps_than_armings(steps.drop_last());
    }
}

/// Without arming nothing is injected.
pub proof fn nothing_is_injected_before_arming<S>(state: ChirpState<S>, seen: u64)
    requires
        state.generation() == 0,
    ensures
        !inject_due(state.generation(), seen),
{
}

/// Two detections that count are more than the cooldown apart.
pub proof fn counted_detections_are_apart(detector: ChirpDetector, now: u64, last_send: u64)
    requires
        detector.counts(now, last_send),
    ensures
        now > detector.last_detection() + COOLDOWN_MICROS,
{
}

/// A chirp that was found: where in its chunk, and what the clock then showed.
pub struct Found {
    pub offset: nat,
    pub now: u64,
    pub last_send: u64,
    pub sample_rate: u32,
}

/// A report: when it was made, and the latency it gives.
pub struct LatencyReport {
    pub now: u64,
    pub latency: int,
}

/// When the last detection was counted, after a run of events. An event in which nothing is found
/// (a chunk without the chirp or without samples, or lost chunks) is `None`.
pub open spec fn last_counted(start: u64, events: Seq<Option<Found>>) -> u64
    decreases events.len(),
{
    if events.len() == 0 {
        start
    } else {
        let before = last_counted(start, events.drop_last());
        match events.last() {
            Some(f) => if is_counted(before, f.now, f.last_send) {
                f.now
            } else {
                before
            },
            None => before,
        }
    }
}

/// The reports that a run of events leads to.
pub open spec fn reports(start: u64, events: Seq<Option<Found>>) -> Seq<LatencyReport>
    decreases events.len(),
{
    if events.len() == 0 {
        seq![]
    } else {
        let before = reports(start, events.drop_last());
        match events.last() {
            Some(f) => if is_counted(
                last_counted(start, events.drop_last()),
                f.now,
                f.last_send,
            ) {
                before.push(
                    LatencyReport {
                        now: f.now,
                        latency: round_trip(f.now, f.last_send, f.offset, f.sample_rate),
                    },
                )
            } else {
                before
            },
            None => before,
        }
    }
}

/// Whether a report gives the latency of a chirp that was found and had been sent.
pub open spec fn is_of(report: LatencyReport, event: Option<Found>) -> bool {
    &&& event matches Some(f)
    &&& f.last_send > 0
    &&& report.now == f.now
    &&& report.latency == round_trip(f.now, f.last_send, f.offset, f.sample_rate)
}

/// Whether a report is of one of the events.
pub open spec fn is_of_one(report: LatencyReport, events: Seq<Option<Found>>) -> bool {
    exists|k: int| 0 <= k < events.len() && is_of(report, #[trigger] events[k])
}

/// Over any run of events, two reports are more than the cooldown apart, and so is the first one
/// from the start. Every report is of a chirp that was found and had been sent; its latency is the
/// time since then less the place in the chunk, and never below zero. No event in which nothing is
/// found makes a report.
pub proof fn reports_are_apart(start: u64, events: Seq<Option<Found>>)
    ensures
        forall|i: int, j: int|
            0 <= i < j < reports(start, events).len() ==> (#[trigger] reports(start, events)[j]).now
                > (#[trigger] reports(start, events)[i]).now + COOLDOWN_MICROS,
        forall|i: int|
            0 <= i < reports(start, events).len() ==> {
                &&& start + COOLDOWN_MICROS < (#[trigger] reports(start, events)[i]).now
                    <= last_counted(start, events)
                &&& reports(start, events)[i].latency >= 0
                &&& is_of_one(reports(start, events)[i], events)
            },
        start <= last_counted(start, events),
        reports(start, events).len() == 0 ==> last_counted(start, events) == start,
    decreases events.len(),
{
    if events.len() > 0 {
        let front = events.drop_last();
        reports_are_apart(start, front);
        let before = reports(start, front);
        let all = reports(start, events);
        assert forall|i: int| 0 <= i < all.len() implies is_of_one(#[trigger] all[i], events) by {
            if i < before.len() {
                assert(is_of_one(before[i], front));
                let k = choose|k: int| 0 <= k < front.len() && is_of(before[i], #[trigger] front[k]);
                assert(events[k] == front[k]);
            } else {
                assert(is_of(all[i], events[events.len() - 1]));
            }
        }
        assert(forall|i: int| 0 <= i < before.len() ==> all[i] == before[i]);
    }
}

/// The detector reports as the run of events says: it counts a detection exactly when
/// [`reports`] does, and remembers it as [`last_counted`] does.
pub proof fn detector_follows_the_run(
    detector: ChirpDetector,
    events: Seq<Option<Found>>,
    found: Found,
)
    requires
        detector.last_detection() == last_counted(0, events),
    ensures
        detector.counts(found.now, found.last_send) <==> reports(
            0,
            events.push(Some(found)),
        ).len() > reports(0, events).len(),
        detector.counts(found.now, found.last_send) ==> last_counted(0, events.push(Some(found)))
            == found.now,
        detector.counts(found.now, found.last_send) ==> reports(0, events.push(Some(found)))
            == reports(0, events).push(
            LatencyReport {
                now: found.now,
                latency: round_trip(found.now, found.last_send, found.offset, found.sample_rate),
            },
        ),
        !detector.counts(found.now, found.last_send) ==> last_counted(0, events.push(Some(found)))
            == detector.last_detection(),
        last_counted(0, events.push(None)) == detector.last_detection(),
{
    assert(events.push(Some(found)).drop_last() =~= events);
    assert(events.push(None).drop_last() =~= events);
}

/// The place that is found does not depend on how it was searched for: there is one first peak.
pub proof fn first_peak_is_unique(scores: Seq<u32>, a: int, b: int)
    requires
        is_first_peak(scores, a),
        is_first_peak(scores, b),
    ensures
        a == b,
{
    if a < b {
        assert(scores[a] < scores[b]);
    } else if b < a {
        assert(scores[b] < scores[a]);
    }
}

/// A chirp lasts two milliseconds, but for what is left of rates that cannot be divided so.
pub proof fn chirp_lasts_two_milliseconds(sample_rate: u32)
    ensures
        500 * chirp_length(sample_rate) <= sample_rate < 500 * chirp_length(sample_rate) + 500,
{
}

/// The clock counts whole microseconds, until the counter starts again.
pub proof fn clock_counts_whole_microseconds(secs: nat, nanos: nat)
    ensures
        0 <= micros(secs, nanos) < 0x1_0000_0000_0000_0000,
        1_000_000_000 * secs + nanos < 1_000 * 0x1_0000_0000_0000_0000 ==> 1_000 * micros(
            secs,
            nanos,
        ) <= 1_000_000_000 * secs + nanos < 1_000 * micros(secs, nanos) + 1_000,
{
}

/// A chirp is injected exactly if it was armed since the encoder last looked, and arming makes that
/// so for every encoder that has kept up. A counter that is ahead injects nothing.
pub proof fn arming_is_seen_once(generation: u64, seen: u64)
    ensures
        inject_due(generation, seen) <==> seen < generation,
        generation < u64::MAX ==> next_generation(generation) == generation + 1,
        generation == u64::MAX ==> next_generation(generation) == 0,
{
}

/// A chirp is looked for at every place at which it fits, and at no other.
pub proof fn every_fitting_place_is_tried(samples: nat, chirp: nat, at: nat)
    requires
        0 < chirp,
    ensures
        at < offset_count(samples, chirp) <==> at + chirp <= samples,
{
}

/// What is found is the best there is: the chirp fits there, its score there is above the threshold,
/// no place at which it fits has a larger score, and none before it one as large. Each score is what
/// `score` gives to exactly the samples that the chirp would cover.
pub proof fn found_place_is_the_best<S, C: Fn(&[S], &[S]) -> u32>(
    samples: Seq<S>,
    chirp: Seq<S>,
    score: C,
    threshold: i64,
    at: int,
    other: int,
)
    requires
        detects(samples, chirp, score, threshold, at),
        0 <= other,
        other + chirp.len() <= samples.len(),
    ensures
        0 <= at,
        at + chirp.len() <= samples.len(),
        exists|w: &[S], c: &[S], best: u32, v: &[S], d: &[S], value: u32|
            {
                &&& #[trigger] call_ensures(score, (w, c), best)
                &&& w@ == samples.subrange(at, at + chirp.len())
                &&& c@ == chirp
                &&& best > threshold
                &&& #[trigger] call_ensures(score, (v, d), value)
                &&& v@ == samples.subrange(other, other + chirp.len())
                &&& d@ == chirp
                &&& value <= best
                &&& other < at ==> value < best
            },
{
    let scores = choose|scores: Seq<u32>|
        {
            &&& #[trigger] all_scored(samples, chirp, score, scores)
            &&& is_first_peak(scores, at)
            &&& scores[at] > threshold
        };
    assert(0 <= at < offset_count(samples.len(), chirp.len()));
    assert(other < offset_count(samples.len(), chirp.len()));
    assert(scored(samples, chirp, score, at, scores[at]));
    assert(scored(samples, chirp, score, other, scores[other]));
    let (w, c) = choose|w: &[S], c: &[S]|
        {
            &&& #[trigger] call_ensures(score, (w, c), scores[at])
            &&& w@ == samples.subrange(at, at + chirp.len())
            &&& c@ == chirp
        };
    let (v, d) = choose|v: &[S], d: &[S]|
        {
            &&& #[trigger] call_ensures(score, (v, d), scores[other])
            &&& v@ == samples.subrange(other, other + chirp.len())
            &&& d@ == chirp
        };
    assert(call_ensures(score, (w, c), scores[at]));
    assert(call_ensures(score, (v, d), scores[other]));
}

/// Nothing is missed: where the chirp is found nowhere, its score is above the threshold at no place
/// at which it fits. So a chirp whose every score at some fitting place is above the threshold is
/// found.
pub proof fn loud_chirp_is_not_missed<S, C: Fn(&[S], &[S]) -> u32>(
    samples: Seq<S>,
    chirp: Seq<S>,
    score: C,
    threshold: i64,
    at: int,
)
    requires
        chirp.len() > 0,
        0 <= at,
        at + chirp.len() <= samples.len(),
    ensures
        misses(samples, chirp, score, threshold) ==> exists|w: &[S], c: &[S], value: u32|
            {
                &&& #[trigger] call_ensures(score, (w, c), value)
                &&& w@ == samples.subrange(at, at + chirp.len())
                &&& c@ == chirp
                &&& value <= threshold
            },
        (forall|w: &[S], c: &[S], value: u32|
            w@ == samples.subrange(at, at + chirp.len()) && c@ == chirp && #[trigger] call_ensures(
                score,
                (w, c),
                value,
            ) ==> value > threshold) ==> !misses(samples, chirp, score, threshold),
{
    if misses(samples, chirp, score, threshold) {
        let scores = choose|scores: Seq<u32>|
            {
                &&& #[trigger] all_scored(samples, chirp, score, scores)
                &&& forall|j: int| 0 <= j < scores.len() ==> #[trigger] scores[j] <= threshold
            };
        assert(at < scores.len());
        assert(scored(samples, chirp, score, at, scores[at]));
        let (w, c) = choose|w: &[S], c: &[S]|
            {
                &&& #[trigger] call_ensures(score, (w, c), scores[at])
                &&& w@ == samples.subrange(at, at + chirp.len())
                &&& c@ == chirp
            };
        assert(call_ensures(score, (w, c), scores[at]) && scores[at] <= threshold);
    }
}

/// The first peak is a score that none exceeds, and that no earlier one reaches.
pub proof fn first_peak_is_first_and_largest(scores: Seq<u32>, at: int, j: int)
    requires
        0 <= j < scores.len(),
    ensures
        is_first_peak(scores, at) ==> 0 <= at < scores.len() && scores[j] <= scores[at] && (j < at
            ==> scores[j] < scores[at]),
{
}

/// A detection counts exactly if a chirp was sent and more than half a second has passed since the
/// last one that did.
pub proof fn cooldown_is_half_a_second(last_detection: u64, now: u64, last_send: u64)
    ensures
        is_counted(last_detection, now, last_send) <==> last_send != 0 && now > last_detection
            + 500_000,
{
}

/// The latency is the time since the chirp was sent, less the time into the chunk in whole
/// microseconds, and zero where that would be negative.
pub proof fn latency_leaves_out_the_place_in_the_chunk(
    now: u64,
    last_send: u64,
    offset: nat,
    sample_rate: u32,
)
    requires
        sample_rate > 0,
    ensures
        round_trip(now, last_send, offset, sample_rate) >= 0,
        ({
            let into = offset_micros(offset, sample_rate as nat) as int;
            let latency = round_trip(now, last_send, offset, sample_rate);
            &&& into * sample_rate <= offset * 1_000_000 < into * sample_rate + sample_rate
            &&& now >= last_send + into ==> latency == now - last_send - into
            &&& now < last_send + into ==> latency == 0
        }),
{
    vstd::arithmetic::div_mod::lemma_fundamental_div_mod(
        (offset * 1_000_000) as int,
        sample_rate as int,
    );
    let into = offset_micros(offset, sample_rate as nat) as int;
    assert(into * sample_rate == sample_rate * into) by (nonlinear_arith);
    assert(into >= 0);
}

} // verus!
