use tokio::sync::broadcast;

use whcanrc_assisted_listening::audio::{
    best_match, choose_buffer_size, hear, list_input_devices, plan_capture, AudioChunk, AudioEvent,
    BufferSize, CaptureError, CpalAudioSource, DeviceChoice, Heard, MockAudioSource, StreamPlan,
    SupportedConfig, ToneAudioSource, CHANNEL_CAPACITY,
};
use whcanrc_assisted_listening::convert::{captured_chunk, downmix, resample};
use whcanrc_assisted_listening::webtransport::{DatagramStream, StreamAction};

fn sine(sample_rate: u32) -> impl Fn(usize) -> f32 {
    move |at: usize| {
        let t = at as f32 / sample_rate as f32;
        (t * 440.0 * 2.0 * std::f32::consts::PI).sin() * 0.5
    }
}

fn start_capture(
    source: &MockAudioSource,
    tx: broadcast::Sender<AudioChunk<f32>>,
    sample_rate: u32,
    channels: u16,
) -> Result<(), CaptureError> {
    let wave = sine(sample_rate);
    let mut index = 0;
    while let Some(chunk) = source.chunk(index, sample_rate, channels, &wave) {
        if tx.send(chunk).is_err() {
            break;
        }
        index += 1;
    }
    Ok(())
}

#[test]
fn test_audio_chunk_clone() {
    let chunk = AudioChunk {
        samples: vec![0.1, 0.2, 0.3],
        sample_rate: 48000,
        channels: 1,
    };
    let cloned = chunk.clone();
    assert_eq!(cloned.samples, vec![0.1, 0.2, 0.3]);
    assert_eq!(cloned.sample_rate, 48000);
    assert_eq!(cloned.channels, 1);
}

#[test]
fn test_mock_audio_source_generates_samples() {
    let (tx, mut rx) = broadcast::channel(16);
    let source = MockAudioSource { chunk_count: 5 };
    start_capture(&source, tx, 48000, 1).unwrap();

    let mut count = 0;
    while let Ok(chunk) = rx.try_recv() {
        assert!(!chunk.samples.is_empty());
        assert_eq!(chunk.sample_rate, 48000);
        assert_eq!(chunk.channels, 1);
        // 48000 / 50 = 960 samples per chunk (20ms)
        assert_eq!(chunk.samples.len(), 960);
        count += 1;
    }
    assert_eq!(count, 5);
}

#[test]
fn test_mock_audio_source_sine_wave_range() {
    let (tx, mut rx) = broadcast::channel(16);
    let source = MockAudioSource { chunk_count: 1 };
    start_capture(&source, tx, 48000, 1).unwrap();

    let chunk = rx.try_recv().unwrap();
    for sample in &chunk.samples {
        assert!(
            *sample >= -1.0 && *sample <= 1.0,
            "Sample out of range: {}",
            sample
        );
    }
}

#[test]
fn test_start_audio_capture_returns_sender() {
    let (tx, mut rx) = broadcast::channel(16);
    let source = MockAudioSource { chunk_count: 3 };
    start_capture(&source, tx, 48000, 1).unwrap();

    let mut received = 0;
    while let Ok(_chunk) = rx.try_recv() {
        received += 1;
    }
    assert_eq!(received, 3, "Should have received exactly 3 chunks");
}

#[test]
fn test_broadcast_no_receivers_does_not_panic() {
    let (tx, _) = broadcast::channel::<AudioChunk<f32>>(16);
    // Drop the only receiver
    let source = MockAudioSource { chunk_count: 5 };
    // This should not panic even though no one is listening
    let result = start_capture(&source, tx, 48000, 1);
    assert!(result.is_ok());
}

#[test]
fn test_broadcast_channel_multiple_receivers() {
    let (tx, _rx1) = broadcast::channel::<Vec<f32>>(16);
    let mut rx2 = tx.subscribe();
    let mut rx3 = tx.subscribe();

    tx.send(vec![0.1, 0.2, 0.3]).unwrap();

    let data2 = rx2.try_recv().unwrap();
    let data3 = rx3.try_recv().unwrap();
    assert_eq!(data2, vec![0.1, 0.2, 0.3]);
    assert_eq!(data3, vec![0.1, 0.2, 0.3]);
}

#[test]
fn test_broadcast_channel_overflow_handling() {
    // Buffer size of 2
    let (tx, mut rx) = broadcast::channel::<i32>(2);

    // Send 3 items: the first should be dropped
    tx.send(1).unwrap();
    tx.send(2).unwrap();
    tx.send(3).unwrap();

    // First recv should return a Lagged error
    match rx.try_recv() {
        Err(broadcast::error::TryRecvError::Lagged(n)) => {
            assert_eq!(n, 1);
        }
        other => panic!("Expected Lagged error, got {:?}", other),
    }

    // Subsequent reads should work
    assert_eq!(rx.try_recv().unwrap(), 2);
    assert_eq!(rx.try_recv().unwrap(), 3);
}

fn quantize_sample(s: f32) -> i16 {
    let clamped = s.clamp(-1.0, 1.0);
    (clamped * i16::MAX as f32) as i16
}

#[test]
fn test_f32_to_i16_conversion() {
    let chunk = AudioChunk {
        samples: vec![0.0f32, 1.0, -1.0, 0.5, -0.5],
        sample_rate: 48000,
        channels: 1,
    };
    let pcm = chunk.quantize(quantize_sample);
    let mut stream = DatagramStream::new();
    let pcm_bytes: Vec<u8> = match stream.on_event(AudioEvent::Chunk(pcm)) {
        StreamAction::Send(datagram) => datagram[8..].to_vec(),
        other => panic!("{:?}", other),
    };

    // 5 samples * 2 bytes each = 10 bytes
    assert_eq!(pcm_bytes.len(), 10);

    // Check silence (0.0) maps to ~0
    let val = i16::from_le_bytes([pcm_bytes[0], pcm_bytes[1]]);
    assert_eq!(val, 0);

    // Check 1.0 maps to i16::MAX
    let val = i16::from_le_bytes([pcm_bytes[2], pcm_bytes[3]]);
    assert_eq!(val, i16::MAX);

    // Check -1.0 maps to near i16::MIN
    let val = i16::from_le_bytes([pcm_bytes[4], pcm_bytes[5]]);
    assert!(val < -32000);
}

#[test]
fn test_clamping_out_of_range_samples() {
    let samples: Vec<f32> = vec![2.0, -2.0, 1.5, -1.5];
    for &s in &samples {
        let clamped = s.clamp(-1.0, 1.0);
        assert!(clamped >= -1.0 && clamped <= 1.0);
    }
}

#[test]
fn quantize_keeps_order_rate_and_channels() {
    let chunk = AudioChunk { samples: vec![2.0f32, -0.5, 0.0], sample_rate: 44100, channels: 2 };
    let pcm = chunk.quantize(quantize_sample);
    assert_eq!(pcm.samples, vec![32767, -16383, 0]);
    assert_eq!(pcm.sample_rate, 44100);
    assert_eq!(pcm.channels, 2);
}

#[test]
fn error_marker_is_empty_and_skipped() {
    let marker: AudioChunk<f32> = AudioChunk::error_marker(48000, 1);
    assert!(marker.samples.is_empty());
    assert_eq!(marker.sample_rate, 48000);
    assert_eq!(marker.channels, 1);
    assert!(matches!(hear(AudioEvent::Chunk(marker)), Heard::Nothing));
}

#[test]
fn listeners_skip_lag_and_stop_at_the_end() {
    assert!(matches!(hear(AudioEvent::<f32>::Lagged(3)), Heard::Nothing));
    assert!(matches!(hear(AudioEvent::<f32>::Closed), Heard::End));
    let chunk = AudioChunk { samples: vec![0.5f32], sample_rate: 48000, channels: 1 };
    match hear(AudioEvent::Chunk(chunk)) {
        Heard::Samples(c) => assert_eq!(c.samples, vec![0.5]),
        _ => panic!("a chunk with samples must be heard"),
    }
}

#[test]
fn mock_chunks_follow_one_wave() {
    let source = MockAudioSource { chunk_count: 2 };
    let position = |at: usize| at;
    let first = source.chunk(0, 500, 1, &position).unwrap();
    let second = source.chunk(1, 500, 1, &position).unwrap();
    assert_eq!(first.samples, (0..10).collect::<Vec<usize>>());
    assert_eq!(second.samples, (10..20).collect::<Vec<usize>>());
    assert!(source.chunk(2, 500, 1, &position).is_none());
}

#[test]
fn tone_chunks_are_ten_milliseconds_without_gaps() {
    let position = |at: usize| at;
    let (first, next) = ToneAudioSource.chunk(0, 48000, 1, &position);
    assert_eq!(first.samples.len(), 480);
    assert_eq!(next, 480);
    let (second, next) = ToneAudioSource.chunk(next, 48000, 1, &position);
    assert_eq!(second.samples[0], 480);
    assert_eq!(second.samples[479], 959);
    assert_eq!(second.sample_rate, 48000);
    assert_eq!(next, 960);
    assert_eq!(ToneAudioSource::CHUNK_MILLIS, 10);
    assert_eq!(CHANNEL_CAPACITY, 100);
}

#[test]
fn devices_are_listed_with_the_default_one_marked() {
    let names = vec![Some("Mic".to_string()), None, Some("Line".to_string())];
    let listed = list_input_devices(Some(names), Some("Line".to_string()));
    assert_eq!(listed, vec![("Mic".to_string(), false), ("Line".to_string(), true)]);
    assert_eq!(list_input_devices(None, Some("Line".to_string())), vec![]);
    let nameless = list_input_devices(Some(vec![Some("".to_string())]), None);
    assert_eq!(nameless, vec![("".to_string(), true)]);
}

#[test]
fn device_is_found_by_name() {
    let names = vec![None, Some("USB".to_string()), Some("USB".to_string())];
    let source = CpalAudioSource { device_name: Some("USB".to_string()) };
    assert_eq!(source.select_device(&names, false).unwrap(), DeviceChoice::Listed(1));
    let source = CpalAudioSource { device_name: Some("None".to_string()) };
    match source.select_device(&names, true) {
        Err(e) => assert_eq!(e.message(), "Audio device 'None' not found"),
        Ok(_) => panic!("no device has this name"),
    }
}

#[test]
fn default_device_is_taken_where_no_name_is_given() {
    let source = CpalAudioSource { device_name: None };
    assert_eq!(source.select_device(&vec![], true).unwrap(), DeviceChoice::Default);
    let e = source.select_device(&vec![Some("Mic".to_string())], false).unwrap_err();
    assert!(matches!(e, CaptureError::NoDefaultDevice));
    assert_eq!(e.message(), "No default input device found");
}

#[test]
fn first_working_buffer_size_is_chosen() {
    assert_eq!(choose_buffer_size(|size| size >= 512), BufferSize::Fixed(512));
    assert_eq!(choose_buffer_size(|_| true), BufferSize::Fixed(256));
    assert_eq!(choose_buffer_size(|size| size == 1024), BufferSize::Fixed(1024));
    assert_eq!(choose_buffer_size(|_| false), BufferSize::Default);
}

fn offer(channels: u16, min: u32, max: u32, float_samples: bool) -> SupportedConfig {
    SupportedConfig { channels, min_sample_rate: min, max_sample_rate: max, float_samples }
}

#[test]
fn channels_count_before_the_sample_rate() {
    let configs = vec![
        offer(1, 48000, 48000, false),
        offer(2, 48000, 48000, true),
        offer(1, 8000, 16000, true),
        offer(1, 8000, 16000, true),
    ];
    assert_eq!(best_match(&configs, 48000, 1), Some(2));
    assert_eq!(best_match(&configs, 48000, 2), Some(1));
    assert_eq!(best_match(&vec![offer(1, 48000, 48000, false)], 48000, 1), None);
}

#[test]
fn nearest_rate_of_a_range_is_picked() {
    assert_eq!(offer(1, 44100, 96000, true).pick_rate(48000), 48000);
    assert_eq!(offer(1, 96000, 192000, true).pick_rate(48000), 96000);
    assert_eq!(offer(1, 8000, 16000, true).pick_rate(48000), 16000);
}

#[test]
fn wanted_format_is_used_as_it_is() {
    let plan = plan_capture(true, BufferSize::Fixed(256), &vec![], 48000, 1).unwrap();
    assert_eq!(
        plan,
        StreamPlan {
            channels: 1,
            sample_rate: 48000,
            buffer_size: BufferSize::Fixed(256),
            needs_conversion: false,
        }
    );
}

#[test]
fn fallback_is_converted_if_it_differs() {
    let configs = vec![offer(2, 44100, 44100, true)];
    let plan = plan_capture(false, BufferSize::Fixed(256), &configs, 48000, 1).unwrap();
    assert_eq!(
        plan,
        StreamPlan {
            channels: 2,
            sample_rate: 44100,
            buffer_size: BufferSize::Default,
            needs_conversion: true,
        }
    );
    let configs = vec![offer(1, 8000, 48000, true)];
    let plan = plan_capture(false, BufferSize::Fixed(256), &configs, 48000, 1).unwrap();
    assert!(!plan.needs_conversion);
    let e = plan_capture(false, BufferSize::Default, &vec![], 48000, 1).unwrap_err();
    assert_eq!(e.message(), "No compatible audio input config found");
}

fn mean(frame: &[f32]) -> f32 {
    frame.iter().sum::<f32>() / 2.0
}

#[test]
fn frames_are_downmixed() {
    let mixed = downmix(&[1.0f32, 0.0, 0.5, 0.5, -1.0], 2, &mean);
    assert_eq!(mixed, vec![0.5, 0.5, -0.5]);
    assert!(downmix::<f32, _>(&[], 2, &mean).is_empty());
}

#[test]
fn resampling_stays_within_the_source() {
    let position = |i: usize| (i / 2, if i % 2 == 0 { 0.0f32 } else { 0.5 });
    let lerp = |a: f32, b: f32, t: f32| a + (b - a) * t;
    let out = resample(&[0.0f32, 1.0], 5, &position, &lerp);
    assert_eq!(out, vec![0.0, 0.5, 1.0, 1.0, 1.0]);
    assert!(resample(&[] as &[f32], 0, &position, &lerp).is_empty());
}

#[test]
fn captured_chunk_carries_the_configured_format() {
    let plan = StreamPlan {
        channels: 2,
        sample_rate: 24000,
        buffer_size: BufferSize::Default,
        needs_conversion: true,
    };
    let ratio = 48000f64 / 24000f64;
    let len = |n: usize| (n as f64 * ratio) as usize;
    let position = |i: usize| {
        let at = i as f64 / ratio;
        (at as usize, (at - (at as usize) as f64) as f32)
    };
    let lerp = |a: f32, b: f32, t: f32| a + (b - a) * t;
    let data = [0.0f32, 1.0, 1.0, 1.0];
    let chunk = captured_chunk(&plan, &data, 48000, 1, &mean, &len, &position, &lerp);
    assert_eq!(chunk.samples, vec![0.5, 0.75, 1.0, 1.0]);
    assert_eq!(chunk.sample_rate, 48000);
    assert_eq!(chunk.channels, 1);

    let same = StreamPlan { channels: 1, sample_rate: 48000, needs_conversion: false, ..plan };
    let chunk = captured_chunk(&same, &data, 48000, 1, &mean, &len, &position, &lerp);
    assert_eq!(chunk.samples, vec![0.0, 1.0, 1.0, 1.0]);

    let rate_only = StreamPlan { channels: 1, ..plan };
    let chunk = captured_chunk(&rate_only, &[0.0f32, 1.0], 48000, 1, &mean, &len, &position, &lerp);
    assert_eq!(chunk.samples, vec![0.0, 0.5, 1.0, 1.0]);

    let channels_only = StreamPlan { sample_rate: 48000, ..plan };
    let chunk = captured_chunk(&channels_only, &data, 48000, 1, &mean, &len, &position, &lerp);
    assert_eq!(chunk.samples, vec![0.5, 1.0]);
}

#[test]
fn events_keep_their_kind_when_quantized() {
    let quantizer = |s: f32| (s.clamp(-1.0, 1.0) * i16::MAX as f32) as i16;
    let event = AudioEvent::Chunk(AudioChunk {
        samples: vec![0.0f32, 1.0, -2.0, 0.5],
        sample_rate: 44100,
        channels: 2,
    });
    match event.quantize(quantizer) {
        AudioEvent::Chunk(chunk) => {
            assert_eq!(chunk.samples, vec![0, 32767, -32767, 16383]);
            assert_eq!((chunk.sample_rate, chunk.channels), (44100, 2));
        }
        _ => panic!("not a chunk"),
    }
    assert!(matches!(AudioEvent::Lagged::<f32>(7).quantize(quantizer), AudioEvent::Lagged(7)));
    assert!(matches!(AudioEvent::Closed::<f32>.quantize(quantizer), AudioEvent::Closed));
}

#[test]
fn downmixing_hears_every_sample_once() {
    let data: Vec<u32> = (0..20).map(|i| 1 << i).collect();
    let add = |frame: &[u32]| frame.iter().sum::<u32>();
    for channels in [1usize, 2, 3, 7, 20, 64] {
        let mixed = downmix(&data, channels, &add);
        assert_eq!(mixed.len(), data.len().div_ceil(channels));
        assert_eq!(mixed.iter().sum::<u32>(), (1 << 20) - 1);
        assert_eq!(mixed[0], add(&data[..channels.min(20)]));
    }
}

#[test]
fn wanted_stereo_is_still_mono_in_chunks() {
    let plan = plan_capture(true, BufferSize::Fixed(256), &vec![], 48000, 2).unwrap();
    assert_eq!((plan.channels, plan.sample_rate, plan.needs_conversion), (2, 48000, true));
    let fallback =
        plan_capture(false, BufferSize::Default, &vec![offer(2, 8000, 96000, true)], 48000, 2);
    assert!(fallback.unwrap().needs_conversion);
    let mono_device =
        plan_capture(false, BufferSize::Default, &vec![offer(1, 8000, 96000, true)], 48000, 2);
    assert!(!mono_device.unwrap().needs_conversion);

    let unused = |_: usize| 0;
    let position = |_: usize| (0, 0.0f32);
    let lerp = |a: f32, _: f32, _: f32| a;
    let data = [0.0f32, 1.0, 0.5, 0.5, -1.0, -1.0];
    let chunk = captured_chunk(&plan, &data, 48000, 2, &mean, &unused, &position, &lerp);
    assert_eq!(chunk.samples, vec![0.5, 0.5, -1.0]);
}
