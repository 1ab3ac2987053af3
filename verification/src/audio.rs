//! Audio chunks and where they come from: the choice of an input device and of a stream
//! configuration, and the sources of test audio.
//!
//! Samples are a type parameter: every rule about where samples go holds for any sample type, and
//! the arithmetic on single samples is handed in as functions.
use vstd::prelude::*;

use crate::text::join;

verus! {

/// How many chunks the channel between capture and its listeners holds
/// (about two seconds at 20 ms each).
pub const CHANNEL_CAPACITY: usize = 100;

/// A chunk of audio samples: mono, at the configured sample rate. Whatever number of channels
/// the configuration names, there is one sample for each frame.
#[derive(Clone, Debug)]
pub struct AudioChunk<S> {
    pub samples: Vec<S>,
    pub sample_rate: u32,
    pub channels: u16,
}

/// What a listener gets from the audio channel.
pub enum AudioEvent<S> {
    /// The next chunk.
    Chunk(AudioChunk<S>),
    /// The listener was too slow, and so many chunks are lost to it.
    Lagged(u64),
    /// Nothing more will come.
    Closed,
}

impl<S> AudioChunk<S> {
    /// The chunk that reports a stream error: it holds no samples, and listeners skip it.
    pub fn error_marker(sample_rate: u32, channels: u16) -> (r: AudioChunk<S>)
        ensures
            r.samples@ == Seq::<S>::empty(),
            r.sample_rate == sample_rate,
            r.channels == channels,
    {
        AudioChunk { samples: Vec::new(), sample_rate, channels }
    }
}

impl<S: Copy> AudioChunk<S> {
    /// Turns every sample into a 16-bit one, in place and in order.
    pub fn quantize<Q: Fn(S) -> i16>(&self, quantizer: Q) -> (r: AudioChunk<i16>)
        requires
            forall|i: int|
                0 <= i < self.samples@.len() ==> call_requires(
                    quantizer,
                    (#[trigger] self.samples@[i],),
                ),
        ensures
            r.samples@.len() == self.samples@.len(),
            forall|i: int|
                0 <= i < r.samples@.len() ==> call_ensures(
                    quantizer,
                    (self.samples@[i],),
                    #[trigger] r.samples@[i],
                ),
            r.sample_rate == self.sample_rate,
            r.channels == self.channels,
    {
        let mut samples: Vec<i16> = Vec::new();
        let n: usize = self.samples.len();
        let mut i: usize = 0;
        while i < n
            invariant
                n == self.samples@.len(),
                i <= n,
                samples@.len() == i,
                forall|j: int|
                    0 <= j < n ==> call_requires(quantizer, (#[trigger] self.samples@[j],)),
                forall|j: int|
                    0 <= j < i ==> call_ensures(
                        quantizer,
                        (self.samples@[j],),
                        #[trigger] samples@[j],
                    ),
            decreases n - i,
        {
            samples.push(quantizer(self.samples[i]));
            i += 1;
        }
        AudioChunk { samples, sample_rate: self.sample_rate, channels: self.channels }
    }
}

impl<S: Copy> AudioEvent<S> {
    /// Turns the samples of the event, if it has any, into 16-bit ones.
    pub fn quantize<Q: Fn(S) -> i16>(&self, quantizer: Q) -> (r: AudioEvent<i16>)
        requires
            forall|s: S| #[trigger] call_requires(quantizer, (s,)),
        ensures
            match *self {
                AudioEvent::Chunk(chunk) => {
                    &&& r matches AudioEvent::Chunk(q)
                    &&& q.samples@.len() == chunk.samples@.len()
                    &&& forall|i: int|
                        0 <= i < q.samples@.len() ==> call_ensures(
                            quantizer,
                            (chunk.samples@[i],),
                            #[trigger] q.samples@[i],
                        )
                    &&& q.sample_rate == chunk.sample_rate
                    &&& q.channels == chunk.channels
                },
                AudioEvent::Lagged(n) => r == AudioEvent::<i16>::Lagged(n),
                AudioEvent::Closed => r is Closed,
            },
    {
        match self {
            AudioEvent::Chunk(chunk) => AudioEvent::Chunk(chunk.quantize(quantizer)),
            AudioEvent::Lagged(n) => AudioEvent::Lagged(*n),
            AudioEvent::Closed => AudioEvent::Closed,
        }
    }
}

/// What a listener makes of an event.
pub enum Heard<S> {
    /// A chunk to work on; it holds at least one sample.
    Samples(AudioChunk<S>),
    /// Nothing to work on; the listener goes on.
    Nothing,
    /// The end; the listener stops.
    End,
}

/// The rule that all listeners follow: empty chunks are skipped, lost chunks are put up with, and
/// a closed channel is the end.
pub fn hear<S>(event: AudioEvent<S>) -> (r: Heard<S>)
    ensures
        match event {
            AudioEvent::Chunk(chunk) => if chunk.samples@.len() == 0 {
                r is Nothing
            } else {
                r == Heard::Samples(chunk)
            },
            AudioEvent::Lagged(_) => r is Nothing,
            AudioEvent::Closed => r is End,
        },
{
    match event {
        AudioEvent::Chunk(chunk) => {
            if chunk.samples.len() == 0 {
                Heard::Nothing
            } else {
                Heard::Samples(chunk)
            }
        },
        AudioEvent::Lagged(_) => Heard::Nothing,
        AudioEvent::Closed => Heard::End,
    }
}

/// Why capture cannot start.
#[derive(Debug)]
pub enum CaptureError {
    /// No input device has the wanted name.
    DeviceNotFound(String),
    /// No device was asked for, and there is no default one.
    NoDefaultDevice,
    /// The device offers no configuration with usable samples.
    NoCompatibleConfig,
}

impl CaptureError {
    /// The sentence that describes the error.
    pub open spec fn text(self) -> Seq<char> {
        match self {
            CaptureError::DeviceNotFound(name) => "Audio device '"@ + name@ + "' not found"@,
            CaptureError::NoDefaultDevice => "No default input device found"@,
            CaptureError::NoCompatibleConfig => "No compatible audio input config found"@,
        }
    }

    /// Describes the error in one sentence.
    pub fn message(&self) -> (r: String)
        ensures
            r@ == self.text(),
    {
        match self {
            CaptureError::DeviceNotFound(name) => {
                let mut r = join("Audio device '", name.as_str());
                r.append("' not found");
                r
            },
            CaptureError::NoDefaultDevice => "No default input device found".to_string(),
            CaptureError::NoCompatibleConfig => {
                "No compatible audio input config found".to_string()
            },
        }
    }
}

/// The named devices among `names`, each with whether it has the name `default_name`. A device
/// whose name cannot be read is left out.
pub open spec fn device_list(names: Seq<Option<String>>, default_name: Seq<char>) -> Seq<
    (Seq<char>, bool),
>
    decreases names.len(),
{
    if names.len() == 0 {
        seq![]
    } else {
        let before = device_list(names.drop_last(), default_name);
        match names.last() {
            Some(name) => before.push((name@, name@ == default_name)),
            None => before,
        }
    }
}

/// The contents of a device list.
pub open spec fn device_views(devices: Seq<(String, bool)>) -> Seq<(Seq<char>, bool)> {
    devices.map_values(|d: (String, bool)| (d.0@, d.1))
}

/// Lists the available input devices as (name, is_default) pairs.
///
/// `devices` holds the name of every input device, `None` where it cannot be read, and is `None`
/// itself where the devices cannot be listed. `default_name` is the name of the default device,
/// if there is one with a name.
pub fn list_input_devices(
    devices: Option<Vec<Option<String>>>,
    default_name: Option<String>,
) -> (r: Vec<(String, bool)>)
    ensures
        device_views(r@) == match devices {
            Some(names) => device_list(
                names@,
                match default_name {
                    Some(d) => d@,
                    None => Seq::empty(),
                },
            ),
            None => Seq::empty(),
        },
{
    let mut r: Vec<(String, bool)> = Vec::new();
    let default_name = match default_name {
        Some(d) => d,
        None => String::new(),
    };
    if let Some(names) = devices {
        let n: usize = names.len();
        let mut i: usize = 0;
        assert(device_views(r@) =~= device_list(names@.take(0), default_name@));
        while i < n
            invariant
                n == names@.len(),
                i <= n,
                device_views(r@) == device_list(names@.take(i as int), default_name@),
            decreases n - i,
        {
            assert(names@.take(i + 1).drop_last() =~= names@.take(i as int));
            let ghost before = r@;
            if let Some(name) = &names[i] {
                let is_default = *name == default_name;
                r.push((name.clone(), is_default));
                assert(device_views(r@) =~= device_views(before).push((name@, is_default)));
            }
            i += 1;
        }
        assert(names@.take(n as int) =~= names@);
    } else {
        assert(device_views(r@) =~= Seq::empty());
    }
    r
}

/// Captures from an input device, optionally one with a given name.
#[derive(Debug)]
pub struct CpalAudioSource {
    pub device_name: Option<String>,
}

/// Which input device to open.
#[derive(Debug, Clone, Copy, PartialEq, Eq, Structural)]
pub enum DeviceChoice {
    /// The device at this place of the list.
    Listed(usize),
    /// The default one.
    Default,
}

/// Whether a device is known to have the name `wanted`.
pub open spec fn is_named(device: Option<String>, wanted: Seq<char>) -> bool {
    match device {
        Some(name) => name@ == wanted,
        None => false,
    }
}

impl CpalAudioSource {
    /// Picks the input device: the first one with the wanted name, or the default one where no
    /// name is wanted.
    pub fn select_device(&self, names: &Vec<Option<String>>, has_default: bool) -> (r: Result<
        DeviceChoice,
        CaptureError,
    >)
        ensures
            match self.device_name {
                Some(wanted) => match r {
                    Ok(DeviceChoice::Listed(i)) => {
                        &&& i < names@.len()
                        &&& is_named(names@[i as int], wanted@)
                        &&& forall|j: int| 0 <= j < i ==> !is_named(#[trigger] names@[j], wanted@)
                    },
                    Ok(DeviceChoice::Default) => false,
                    Err(e) => {
                        &&& e matches CaptureError::DeviceNotFound(name) && name@ == wanted@
                        &&& forall|j: int|
                            0 <= j < names@.len() ==> !is_named(#[trigger] names@[j], wanted@)
                    },
                },
                None => match r {
                    Ok(choice) => has_default && choice == DeviceChoice::Default,
                    Err(e) => !has_default && e is NoDefaultDevice,
                },
            },
    {
        match &self.device_name {
            Some(wanted) => {
                let n: usize = names.len();
                let mut i: usize = 0;
                while i < n
                    invariant
                        n == names@.len(),
                        i <= n,
                        self.device_name == Some(*wanted),
                        forall|j: int| 0 <= j < i ==> !is_named(#[trigger] names@[j], wanted@),
                    decreases n - i,
                {
                    if let Some(name) = &names[i] {
                        if *name == *wanted {
                            return Ok(DeviceChoice::Listed(i));
                        }
                    }
                    i += 1;
                }
                Err(CaptureError::DeviceNotFound(wanted.clone()))
            },
            None => {
                if has_default {
                    Ok(DeviceChoice::Default)
                } else {
                    Err(CaptureError::NoDefaultDevice)
                }
            },
        }
    }
}

/// How many frames the device delivers at a time.
#[derive(Debug, Clone, Copy, PartialEq, Eq, Structural)]
pub enum BufferSize {
    /// As many as the device chooses.
    Default,
    /// This many.
    Fixed(u32),
}

/// The fixed buffer sizes to try, in order: small ones for low latency.
pub open spec fn buffer_candidates() -> Seq<u32> {
    seq![256u32, 512u32, 1024u32]
}

/// Picks the first candidate that `probe` finds to work, and the device's own choice if none does.
/// No candidate behind the first working one is probed.
pub fn choose_buffer_size<P: Fn(u32) -> bool>(probe: P) -> (r: BufferSize)
    requires
        forall|k: int|
            0 <= k < buffer_candidates().len() ==> call_requires(
                probe,
                (#[trigger] buffer_candidates()[k],),
            ),
    ensures
        match r {
            BufferSize::Fixed(size) => exists|k: int|
                {
                    &&& 0 <= k < buffer_candidates().len()
                    &&& size == #[trigger] buffer_candidates()[k]
                    &&& call_ensures(probe, (size,), true)
                    &&& forall|j: int|
                        0 <= j < k ==> call_ensures(
                            probe,
                            (#[trigger] buffer_candidates()[j],),
                            false,
                        )
                },
            BufferSize::Default => forall|j: int|
                0 <= j < buffer_candidates().len() ==> call_ensures(
                    probe,
                    (#[trigger] buffer_candidates()[j],),
                    false,
                ),
        },
        r == BufferSize::Fixed(256) || call_ensures(probe, (256u32,), false),
        r == BufferSize::Fixed(256) || r == BufferSize::Fixed(512) || call_ensures(
            probe,
            (512u32,),
            false,
        ),
        r == BufferSize::Fixed(256) || r == BufferSize::Fixed(512) || r == BufferSize::Fixed(1024)
            || r == BufferSize::Default,
        r == BufferSize::Default ==> call_ensures(probe, (1024u32,), false),
{
    assert(buffer_candidates()[0] == 256 && buffer_candidates()[1] == 512
        && buffer_candidates()[2] == 1024);
    if probe(256) {
        BufferSize::Fixed(256)
    } else if probe(512) {
        BufferSize::Fixed(512)
    } else if probe(1024) {
        BufferSize::Fixed(1024)
    } else {
        BufferSize::Default
    }
}

/// One of the configurations that a device offers.
#[derive(Debug, Clone, Copy)]
pub struct SupportedConfig {
    pub channels: u16,
    pub min_sample_rate: u32,
    pub max_sample_rate: u32,
    /// Whether its samples are 32-bit floating point numbers.
    pub float_samples: bool,
}

/// The stream to open, and whether its frames have to be converted.
#[derive(Debug, Clone, Copy, PartialEq, Eq, Structural)]
pub struct StreamPlan {
    pub channels: u16,
    pub sample_rate: u32,
    pub buffer_size: BufferSize,
    pub needs_conversion: bool,
}

/// The distance between two numbers.
pub open spec fn apart(a: int, b: int) -> int {
    if a < b {
        b - a
    } else {
        a - b
    }
}

impl SupportedConfig {
    /// The sample rate of this configuration that is nearest to `wanted`.
    pub open spec fn nearest_rate(self, wanted: u32) -> u32 {
        let capped = if self.max_sample_rate < wanted {
            self.max_sample_rate
        } else {
            wanted
        };
        if capped < self.min_sample_rate {
            self.min_sample_rate
        } else {
            capped
        }
    }

    /// The sample rate of this configuration that is nearest to `wanted`.
    pub fn pick_rate(&self, wanted: u32) -> (r: u32)
        ensures
            r == self.nearest_rate(wanted),
    {
        let capped: u32 = if self.max_sample_rate < wanted {
            self.max_sample_rate
        } else {
            wanted
        };
        if capped < self.min_sample_rate {
            self.min_sample_rate
        } else {
            capped
        }
    }

    /// Whether this configuration matches the wanted format better than `other`: first by the
    /// number of channels, then by the sample rate.
    pub open spec fn is_closer(self, other: SupportedConfig, sample_rate: u32, channels: u16) -> bool {
        let own = apart(self.channels as int, channels as int);
        let its = apart(other.channels as int, channels as int);
        own < its || own == its && apart(
            self.nearest_rate(sample_rate) as int,
            sample_rate as int,
        ) < apart(other.nearest_rate(sample_rate) as int, sample_rate as int)
    }

    /// Decides [`SupportedConfig::is_closer`].
    fn beats(&self, other: &SupportedConfig, sample_rate: u32, channels: u16) -> (r: bool)
        ensures
            r == self.is_closer(*other, sample_rate, channels),
    {
        let own: u16 = if self.channels < channels {
            channels - self.channels
        } else {
            self.channels - channels
        };
        let its: u16 = if other.channels < channels {
            channels - other.channels
        } else {
            other.channels - channels
        };
        let own_rate: u32 = self.pick_rate(sample_rate);
        let its_rate: u32 = other.pick_rate(sample_rate);
        let own_off: u32 = if own_rate < sample_rate {
            sample_rate - own_rate
        } else {
            own_rate - sample_rate
        };
        let its_off: u32 = if its_rate < sample_rate {
            sample_rate - its_rate
        } else {
            its_rate - sample_rate
        };
        own < its || own == its && own_off < its_off
    }
}

/// Whether `i` is the place of the best match: no usable configuration is closer, and none before
/// it is as close.
pub open spec fn is_best_match(
    configs: Seq<SupportedConfig>,
    i: int,
    sample_rate: u32,
    channels: u16,
) -> bool {
    &&& 0 <= i < configs.len()
    &&& configs[i].float_samples
    &&& forall|j: int|
        0 <= j < i && (#[trigger] configs[j]).float_samples ==> configs[i].is_closer(
            configs[j],
            sample_rate,
            channels,
        )
    &&& forall|j: int|
        0 <= j < configs.len() && (#[trigger] configs[j]).float_samples ==> !configs[j].is_closer(
            configs[i],
            sample_rate,
            channels,
        )
}

/// Finds the usable configuration that matches the wanted format best.
pub fn best_match(configs: &Vec<SupportedConfig>, sample_rate: u32, channels: u16) -> (r: Option<
    usize,
>)
    ensures
        match r {
            Some(i) => is_best_match(configs@, i as int, sample_rate, channels),
            None => forall|j: int| 0 <= j < configs@.len() ==> !(#[trigger] configs@[j]).float_samples,
        },
{
    let n: usize = configs.len();
    let mut best: Option<usize> = None;
    let mut i: usize = 0;
    while i < n
        invariant
            n == configs@.len(),
            i <= n,
            match best {
                Some(b) => b < i && is_best_match(
                    configs@.take(i as int),
                    b as int,
                    sample_rate,
                    channels,
                ),
                None => forall|j: int| 0 <= j < i ==> !(#[trigger] configs@[j]).float_samples,
            },
        decreases n - i,
    {
        let ghost seen = configs@.take(i as int);
        let ghost more = configs@.take(i + 1);
        assert(forall|j: int| 0 <= j < i ==> seen[j] == configs@[j] && more[j] == configs@[j]);
        assert(more[i as int] == configs@[i as int]);
        if configs[i].float_samples {
            let better = match best {
                Some(b) => configs[i].beats(&configs[b], sample_rate, channels),
                None => true,
            };
            if better {
                best = Some(i);
                assert forall|j: int| 0 <= j < i && more[j].float_samples implies more[i as int].is_closer(
                    more[j],
                    sample_rate,
                    channels,
                ) by {
                    assert(seen[j].float_samples);
                }
            }
        }
        assert(best matches Some(b) ==> is_best_match(more, b as int, sample_rate, channels)) by {
            if let Some(b) = best {
                assert forall|j: int|
                    0 <= j < more.len() && (#[trigger] more[j]).float_samples implies !more[j].is_closer(
                    more[b as int],
                    sample_rate,
                    channels,
                ) by {
                    if j < i {
                        assert(seen[j] == more[j]);
                    }
                }
                assert forall|j: int|
                    0 <= j < b && (#[trigger] more[j]).float_samples implies more[b as int].is_closer(
                    more[j],
                    sample_rate,
                    channels,
                ) by {
                    assert(seen[j] == more[j]);
                }
            }
        }
        i += 1;
    }
    assert(configs@.take(n as int) =~= configs@);
    best
}

/// Whether what a stream of the given format delivers has to be converted to be mono and at the
/// configured sample rate.
pub open spec fn differs(actual_rate: u32, actual_channels: u16, sample_rate: u32) -> bool {
    actual_channels > 1 || actual_rate != sample_rate
}

/// Plans the stream. The wanted format is opened where the device can open it. Otherwise the best
/// match of what the device offers takes its place, with the device's own buffer size. Whichever is
/// opened, it is converted if it has more than one channel or another sample rate.
pub fn plan_capture(
    desired_works: bool,
    buffer_size: BufferSize,
    configs: &Vec<SupportedConfig>,
    sample_rate: u32,
    channels: u16,
) -> (r: Result<StreamPlan, CaptureError>)
    ensures
        match r {
            Ok(plan) => {
                &&& plan.needs_conversion == differs(plan.sample_rate, plan.channels, sample_rate)
                &&& if desired_works {
                    &&& plan.channels == channels
                    &&& plan.sample_rate == sample_rate
                    &&& plan.buffer_size == buffer_size
                } else {
                    exists|i: int|
                        {
                            let c = #[trigger] configs@[i];
                            &&& is_best_match(configs@, i, sample_rate, channels)
                            &&& plan.channels == c.channels
                            &&& plan.sample_rate == c.nearest_rate(sample_rate)
                            &&& plan.buffer_size == BufferSize::Default
                        }
                }
            },
            Err(e) => {
                &&& e is NoCompatibleConfig
                &&& !desired_works
                &&& forall|j: int|
                    0 <= j < configs@.len() ==> !(#[trigger] configs@[j]).float_samples
            },
        },
{
    if desired_works {
        return Ok(
            StreamPlan { channels, sample_rate, buffer_size, needs_conversion: channels > 1 },
        );
    }
    match best_match(configs, sample_rate, channels) {
        Some(i) => {
            let actual_rate: u32 = configs[i].pick_rate(sample_rate);
            let actual_channels: u16 = configs[i].channels;
            let plan = StreamPlan {
                channels: actual_channels,
                sample_rate: actual_rate,
                buffer_size: BufferSize::Default,
                needs_conversion: actual_channels > 1 || actual_rate != sample_rate,
            };
            assert(configs@[i as int].channels == actual_channels);
            Ok(plan)
        },
        None => Err(CaptureError::NoCompatibleConfig),
    }
}

/// Whether `samples` may be what `wave` gives at `start` and the following positions.
pub open spec fn follows_wave<S, W: Fn(usize) -> S>(samples: Seq<S>, start: int, wave: W) -> bool {
    forall|s: int|
        0 <= s < samples.len() ==> call_ensures(
            wave,
            ((start + s) as usize,),
            #[trigger] samples[s],
        )
}

/// Takes `count` samples of `wave`, from position `start` on.
pub fn sample_wave<S, W: Fn(usize) -> S>(start: usize, count: usize, wave: &W) -> (r: Vec<S>)
    requires
        start + count <= usize::MAX + 1,
        forall|at: usize| start <= at < start + count ==> #[trigger] call_requires(*wave, (at,)),
    ensures
        r@.len() == count,
        follows_wave(r@, start as int, *wave),
{
    let mut r: Vec<S> = Vec::new();
    let mut s: usize = 0;
    while s < count
        invariant
            start + count <= usize::MAX + 1,
            s <= count,
            r@.len() == s,
            forall|at: usize|
                start <= at < start + count ==> #[trigger] call_requires(*wave, (at,)),
            follows_wave(r@, start as int, *wave),
        decreases count - s,
    {
        let at: usize = start + s;
        r.push(wave(at));
        s += 1;
    }
    r
}

/// The number of samples in a chunk of the test tone: 10 ms.
pub open spec fn tone_frame_count(sample_rate: u32) -> nat {
    (sample_rate / 100) as nat
}

/// Generates a continuous test tone.
#[derive(Debug)]
pub struct ToneAudioSource;

impl ToneAudioSource {
    /// The pause between two chunks, in milliseconds: their playing time.
    pub const CHUNK_MILLIS: u64 = 10;

    /// The chunk of the tone that starts at position `sample_offset`. The next one starts behind
    /// its last sample.
    pub fn chunk<S, W: Fn(usize) -> S>(
        &self,
        sample_offset: usize,
        sample_rate: u32,
        channels: u16,
        wave: &W,
    ) -> (r: (AudioChunk<S>, usize))
        requires
            sample_offset + tone_frame_count(sample_rate) <= usize::MAX,
            forall|at: usize|
                sample_offset <= at < sample_offset + tone_frame_count(sample_rate)
                    ==> #[trigger] call_requires(*wave, (at,)),
        ensures
            r.0.samples@.len() == tone_frame_count(sample_rate),
            follows_wave(r.0.samples@, sample_offset as int, *wave),
            r.0.sample_rate == sample_rate,
            r.0.channels == channels,
            r.1 == sample_offset + r.0.samples@.len(),
    {
        let frame_count: usize = (sample_rate / 100) as usize;
        let samples = sample_wave(sample_offset, frame_count, wave);
        (AudioChunk { samples, sample_rate, channels }, sample_offset + frame_count)
    }
}

/// The number of samples in a chunk of the mock source: 20 ms.
pub open spec fn mock_frame_count(sample_rate: u32) -> nat {
    (sample_rate / 50) as nat
}

/// Generates a finite number of chunks.
#[derive(Debug)]
pub struct MockAudioSource {
    pub chunk_count: usize,
}

impl MockAudioSource {
    /// The chunk with number `index`, or `None` behind the last one. Together the chunks follow
    /// the wave without a gap.
    pub fn chunk<S, W: Fn(usize) -> S>(
        &self,
        index: usize,
        sample_rate: u32,
        channels: u16,
        wave: &W,
    ) -> (r: Option<AudioChunk<S>>)
        requires
            index < self.chunk_count ==> (index + 1) * mock_frame_count(sample_rate) <= usize::MAX
                + 1,
            forall|at: usize| #[trigger] call_requires(*wave, (at,)),
        ensures
            r is Some <==> index < self.chunk_count,
            r matches Some(chunk) ==> {
                &&& chunk.samples@.len() == mock_frame_count(sample_rate)
                &&& follows_wave(
                    chunk.samples@,
                    index * mock_frame_count(sample_rate),
                    *wave,
                )
                &&& chunk.sample_rate == sample_rate
                &&& chunk.channels == channels
            },
    {
        if index >= self.chunk_count {
            return None;
        }
        let frame_count: usize = (sample_rate / 50) as usize;
        proof {
            assert((index + 1) * frame_count == index * frame_count + frame_count) by (nonlinear_arith);
            assert(0 <= index * frame_count) by (nonlinear_arith);
        }
        let start: usize = if frame_count == 0 {
            0
        } else {
            index * frame_count
        };
        let samples = sample_wave(start, frame_count, wave);
        Some(AudioChunk { samples, sample_rate, channels })
    }
}

/// Chunks that follow on each other make one longer piece of the wave.
pub proof fn consecutive_chunks_join<S, W: Fn(usize) -> S>(
    first: Seq<S>,
    second: Seq<S>,
    start: int,
    wave: W,
)
    requires
        follows_wave(first, start, wave),
        follows_wave(second, start + first.len(), wave),
    ensures
        follows_wave(first + second, start, wave),
{
    assert forall|s: int| 0 <= s < (first + second).len() implies call_ensures(
        wave,
        ((start + s) as usize,),
        #[trigger] (first + second)[s],
    ) by {
        if s < first.len() {
            assert((first + second)[s] == first[s]);
        } else {
            assert((first + second)[s] == second[s - first.len()]);
        }
    }
}

/// The rate that is picked of a device's range is one of the range, and none of them is nearer to
/// the wanted rate.
pub proof fn picked_rate_is_nearest(config: SupportedConfig, wanted: u32, other: u32)
    requires
        config.min_sample_rate <= other <= config.max_sample_rate,
    ensures
        config.min_sample_rate <= config.nearest_rate(wanted) <= config.max_sample_rate,
        apart(config.nearest_rate(wanted) as int, wanted as int) <= apart(
            other as int,
            wanted as int,
        ),
{
}

/// There is at most one best match, so the same offers always lead to the same stream.
pub proof fn best_match_is_unique(
    configs: Seq<SupportedConfig>,
    i: int,
    j: int,
    sample_rate: u32,
    channels: u16,
)
    requires
        is_best_match(configs, i, sample_rate, channels),
        is_best_match(configs, j, sample_rate, channels),
    ensures
        i == j,
{
}

/// A device that offers the wanted format is opened with it, also when it is found by falling
/// back. Its samples are then passed on as they are if they are mono.
pub proof fn exact_offer_is_opened(
    configs: Seq<SupportedConfig>,
    i: int,
    k: int,
    sample_rate: u32,
    channels: u16,
)
    requires
        is_best_match(configs, i, sample_rate, channels),
        0 <= k < configs.len(),
        configs[k].float_samples,
        configs[k].channels == channels,
        configs[k].min_sample_rate <= sample_rate <= configs[k].max_sample_rate,
    ensures
        configs[i].channels == channels,
        configs[i].nearest_rate(sample_rate) == sample_rate,
        differs(configs[i].nearest_rate(sample_rate), configs[i].channels, sample_rate) <==> channels
            > 1,
{
    assert(!configs[k].is_closer(configs[i], sample_rate, channels));
}

/// The list of devices holds exactly the devices with a name, each marked if and only if the name
/// is the default one; two lists put end to end are the list of all their devices, so that nothing
/// is lost, doubled or moved.
pub proof fn every_named_device_is_listed(
    names: Seq<Option<String>>,
    more: Seq<Option<String>>,
    default_name: Seq<char>,
    name: String,
)
    ensures
        device_list(names + more, default_name) == device_list(names, default_name) + device_list(
            more,
            default_name,
        ),
        device_list(seq![Some(name)], default_name) == seq![(name@, name@ == default_name)],
        device_list(seq![None::<String>], default_name) == Seq::<(Seq<char>, bool)>::empty(),
        device_list(Seq::<Option<String>>::empty(), default_name) == Seq::<
            (Seq<char>, bool),
        >::empty(),
    decreases more.len(),
{
    reveal_with_fuel(device_list, 2);
    assert(seq![Some(name)].drop_last() =~= seq![]);
    assert(seq![None::<String>].drop_last() =~= seq![]);
    assert(device_list(seq![Some(name)], default_name) =~= seq![(name@, name@ == default_name)]);
    if more.len() == 0 {
        assert(names + more =~= names);
        assert(device_list(names, default_name) + seq![] =~= device_list(names, default_name));
    } else {
        every_named_device_is_listed(names, more.drop_last(), default_name, name);
        assert((names + more).drop_last() =~= names + more.drop_last());
        assert(device_list(names + more, default_name) =~= device_list(names, default_name)
            + device_list(more, default_name));
    }
}

/// The list that is returned has its entries in place, and a device is known by its whole name.
pub proof fn devices_are_known_by_name(
    devices: Seq<(String, bool)>,
    i: int,
    name: String,
    wanted: Seq<char>,
)
    requires
        0 <= i < devices.len(),
    ensures
        device_views(devices).len() == devices.len(),
        device_views(devices)[i] == (devices[i].0@, devices[i].1),
        is_named(Some(name), wanted) <==> name@ == wanted,
        !is_named(None, wanted),
{
}

/// A rate that the device offers is picked as it is. Of a device whose rates all lie above it the
/// lowest one is, and of one whose rates all lie below it the highest.
pub proof fn offered_rate_is_kept(config: SupportedConfig, wanted: u32)
    ensures
        config.min_sample_rate <= wanted <= config.max_sample_rate ==> config.nearest_rate(wanted)
            == wanted,
        wanted < config.min_sample_rate ==> config.nearest_rate(wanted) == config.min_sample_rate,
        config.max_sample_rate < wanted && config.min_sample_rate <= config.max_sample_rate
            ==> config.nearest_rate(wanted) == config.max_sample_rate,
        config.max_sample_rate < config.min_sample_rate ==> config.nearest_rate(wanted)
            == config.min_sample_rate,
{
}

/// The chosen offer is usable, and no usable offer is nearer to what is wanted: none differs less
/// in the number of channels, and of those that differ as much none has a rate that is nearer. Of
/// offers that are as near it is the first.
pub proof fn chosen_offer_is_nearest(
    configs: Seq<SupportedConfig>,
    i: int,
    j: int,
    sample_rate: u32,
    channels: u16,
)
    requires
        is_best_match(configs, i, sample_rate, channels),
        0 <= j < configs.len(),
        configs[j].float_samples,
    ensures
        0 <= i < configs.len(),
        configs[i].float_samples,
        ({
            let distance = |a: int, b: int|
                if a < b {
                    b - a
                } else {
                    a - b
                };
            let own = distance(configs[i].channels as int, channels as int);
            let its = distance(configs[j].channels as int, channels as int);
            let own_rate = distance(
                configs[i].nearest_rate(sample_rate) as int,
                sample_rate as int,
            );
            let its_rate = distance(
                configs[j].nearest_rate(sample_rate) as int,
                sample_rate as int,
            );
            &&& own <= its
            &&& own == its ==> own_rate <= its_rate
            &&& own == its && own_rate == its_rate ==> i <= j
        }),
{
    assert(!configs[j].is_closer(configs[i], sample_rate, channels));
    if j < i {
        assert(configs[i].is_closer(configs[j], sample_rate, channels));
    }
}

/// What is opened has to be converted exactly if it is not mono or not at the wanted rate.
pub proof fn only_wanted_mono_is_left_alone(actual_rate: u32, actual_channels: u16, wanted: u32)
    ensures
        !differs(actual_rate, actual_channels, wanted) <==> actual_channels <= 1 && actual_rate
            == wanted,
{
}

/// Each sample of a piece of the wave is what the wave gives at its own position.
pub proof fn samples_stand_at_their_position<S, W: Fn(usize) -> S>(
    samples: Seq<S>,
    start: usize,
    wave: W,
    s: int,
)
    requires
        follows_wave(samples, start as int, wave),
        0 <= s < samples.len(),
        start + s <= usize::MAX,
    ensures
        call_ensures(wave, ((start + s) as usize,), samples[s]),
{
    assert(samples[s] == samples[s]);
}

/// A hundred chunks of the tone, and fifty of the mock source, last a second, but for what is left
/// of rates that cannot be divided so. The pause between two chunks of the tone is their playing
/// time.
pub proof fn chunks_keep_time(sample_rate: u32)
    ensures
        100 * tone_frame_count(sample_rate) <= sample_rate < 100 * tone_frame_count(sample_rate)
            + 100,
        50 * mock_frame_count(sample_rate) <= sample_rate < 50 * mock_frame_count(sample_rate) + 50,
        tone_frame_count(sample_rate) == sample_rate * ToneAudioSource::CHUNK_MILLIS / 1_000,
{
}

/// The buffer sizes are tried from the smallest to the largest, each twice the one before.
pub proof fn small_buffers_are_tried_first(k: int)
    requires
        0 <= k,
        k + 1 < buffer_candidates().len(),
    ensures
        buffer_candidates().len() == 3,
        buffer_candidates()[0] == 256,
        buffer_candidates()[k + 1] == 2 * buffer_candidates()[k],
{
}

/// The error about a device that is not there names the device.
pub proof fn missing_device_is_named(name: String)
    ensures
        ({
            let text = CaptureError::DeviceNotFound(name).text();
            &&& text.len() == 14 + name@.len() + 11
            &&& text.take(14) == "Audio device '"@
            &&& text.subrange(14, 14 + name@.len() as int) == name@
            &&& text.skip(14 + name@.len() as int) == "' not found"@
        }),
{
    reveal_strlit("Audio device '");
    reveal_strlit("' not found");
    let text = CaptureError::DeviceNotFound(name).text();
    assert(text.take(14) =~= "Audio device '"@);
    assert(text.subrange(14, 14 + name@.len() as int) =~= name@);
    assert(text.skip(14 + name@.len() as int) =~= "' not found"@);
}

} // verus!
