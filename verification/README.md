# WHCanRC Assisted Listening

A low-latency audio streaming server for assisted listening. A lecturer speaks into a microphone,
the audio is captured on a PC, and listeners on the same WiFi network open a browser on their phone
to hear it.

## Layout

- `src/` is the library, written and verified with Verus: audio chunks and the choice of a device
  and stream (`audio`), downmixing and resampling (`convert`), Opus framing, peers and the exchange
  of descriptions (`webrtc`), datagrams and the certificate hash (`webtransport`), the answers of
  the HTTP endpoints (`server`), the configuration (`config`), the latency test (`latency_test`),
  the marking of sockets (`qos`), the tray menu and icon (`tray`), system services (`service`), the
  address and its QR code (`banner`), and numbers as text (`text`).
- `app/` is the program around it: devices, sockets, files, and the arithmetic on floating point
  samples, which the library takes as functions.
- `tests/` runs the library on concrete values.

## What is assumed

What the library has from other crates is believed, not proved: `encode_base64` (crate `base64`),
`certificate_digest` and `CertificateChain::as_slice` (`wtransport`), `parse_session_description`
(`webrtc`) and `draw_qr` (`qrcode`). The doc comment of each says what is assumed.

## Configuration

`config.toml` in the working directory, all entries optional:

```toml
port = 8080
log_level = "info"
audio_sample_rate = 48000
audio_channels = 1
```

Each can be overridden by an environment variable with the prefix `WHCANRC_`, such as
`WHCANRC_PORT`.
