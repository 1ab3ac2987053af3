use wtransport::tls::CertificateChain;
use wtransport::Identity;

use whcanrc_assisted_listening::audio::{AudioChunk, AudioEvent};
use whcanrc_assisted_listening::webtransport::{
    DatagramStream, Delivery, StreamAction, WebTransportError, WebTransportServer, HEADER_SIZE,
};

#[test]
fn hash_of_the_first_certificate_is_published() {
    let server = WebTransportServer::new(8081);
    let identity = Identity::self_signed(["localhost", "127.0.0.1", "0.0.0.0"]).unwrap();
    let other = Identity::self_signed(["localhost"]).unwrap();
    let first = identity.certificate_chain().as_slice()[0].clone();
    let second = other.certificate_chain().as_slice()[0].clone();
    let digest: [u8; 32] = *first.hash().as_ref();
    let chain = CertificateChain::new(vec![first, second]);
    let mut state = None;
    server.publish(&chain, &mut state).unwrap();
    let published = state.clone().unwrap().cert_hash;
    assert_eq!(published.len(), 44);
    assert_eq!(
        base64::Engine::decode(&base64::engine::general_purpose::STANDARD, &published).unwrap(),
        digest
    );

    // Another certificate takes its place
    server.publish(other.certificate_chain(), &mut state).unwrap();
    assert_ne!(state.unwrap().cert_hash, published);
}

#[test]
fn digest_is_published_as_base64() {
    let server = WebTransportServer::new(8081);
    let mut state = None;
    let mut digest = [0u8; 32];
    for (i, byte) in digest.iter_mut().enumerate() {
        *byte = (i * 8) as u8;
    }
    server.publish_digest(Some(digest), &mut state).unwrap();
    assert_eq!(
        state.unwrap().cert_hash,
        "AAgQGCAoMDhASFBYYGhweICIkJigqLC4wMjQ2ODo8Pg="
    );
}

#[test]
fn different_digests_have_different_hashes() {
    let server = WebTransportServer::new(8081);
    let mut hashes = vec![];
    for place in 0..32 {
        let mut digest = [0xffu8; 32];
        digest[place] = 0xfe;
        let mut state = None;
        server.publish_digest(Some(digest), &mut state).unwrap();
        let hash = state.unwrap().cert_hash;
        assert_eq!(hash.len(), 44);
        assert!(hash.ends_with('='));
        assert!(!hashes.contains(&hash));
        hashes.push(hash);
    }
}

#[test]
fn empty_chain_is_an_error() {
    let server = WebTransportServer::new(8081);
    let mut state = None;
    let e = server.publish(&CertificateChain::new(vec![]), &mut state).unwrap_err();
    assert_eq!(e, WebTransportError::NoCertificate);
    assert_eq!(e.message(), "No certificate in chain");
    assert!(state.is_none());
}

#[test]
fn server_listens_on_all_interfaces() {
    assert_eq!(WebTransportServer::new(8081).bind_address(), ([0, 0, 0, 0], 8081));
}

fn chunk(samples: &[i16]) -> AudioEvent<i16> {
    AudioEvent::Chunk(AudioChunk { samples: samples.to_vec(), sample_rate: 48000, channels: 1 })
}

fn datagram(stream: &mut DatagramStream, samples: &[i16]) -> Vec<u8> {
    match stream.on_event(chunk(samples)) {
        StreamAction::Send(bytes) => bytes,
        other => panic!("{:?}", other),
    }
}

#[test]
fn datagram_has_header_and_samples() {
    let mut stream = DatagramStream::new();
    assert_eq!(
        datagram(&mut stream, &[1, -1]),
        vec![0, 0, 0, 0, 0, 0, 0, 0, 1, 0, 0xff, 0xff]
    );
    assert_eq!(stream.delivered(true), Delivery::Sent);
    assert_eq!(
        datagram(&mut stream, &[i16::MIN, 0x1234]),
        vec![1, 0, 0, 0, 2, 0, 0, 0, 0, 0x80, 0x34, 0x12]
    );
    assert_eq!(HEADER_SIZE, 8);
}

#[test]
fn datagram_reads_back() {
    let mut stream = DatagramStream::new();
    for _ in 0..300 {
        datagram(&mut stream, &[0; 480]);
        stream.delivered(true);
    }
    let samples: Vec<i16> = vec![0, 1, -1, 257, -257, i16::MAX, i16::MIN];
    let bytes = datagram(&mut stream, &samples);
    assert_eq!(u32::from_le_bytes([bytes[0], bytes[1], bytes[2], bytes[3]]), 300);
    assert_eq!(u32::from_le_bytes([bytes[4], bytes[5], bytes[6], bytes[7]]), 144_000);
    let back: Vec<i16> =
        bytes[8..].chunks(2).map(|b| i16::from_le_bytes([b[0], b[1]])).collect();
    assert_eq!(back, samples);
}

#[test]
fn datagrams_are_numbered_over_the_whole_stream() {
    let mut stream = DatagramStream::new();
    let mut number = 0u32;
    let mut before = 0u32;
    for len in [3usize, 0, 480, 1, 0, 0, 960, 2] {
        let samples: Vec<i16> = (0..len).map(|i| i as i16 - 300).collect();
        match stream.on_event(chunk(&samples)) {
            StreamAction::Send(bytes) => {
                assert_eq!(bytes[..4], number.to_le_bytes());
                assert_eq!(bytes[4..8], before.to_le_bytes());
                let back: Vec<i16> =
                    bytes[8..].chunks(2).map(|b| i16::from_le_bytes([b[0], b[1]])).collect();
                assert_eq!(back, samples);
                assert_eq!(stream.delivered(true), Delivery::Sent);
                number += 1;
                before += len as u32;
            }
            other => {
                assert!(matches!(other, StreamAction::Wait));
                assert_eq!(len, 0);
            }
        }
    }
    assert_eq!(stream.header(), (5, 1446));
    assert_eq!(stream.send_count(), 5);
}

#[test]
fn failed_datagram_ends_the_stream_and_moves_nothing() {
    let mut stream = DatagramStream::new();
    datagram(&mut stream, &[0; 10]);
    stream.delivered(true);
    let before = datagram(&mut stream, &[5]);
    assert_eq!(stream.delivered(false), Delivery::Closed);
    assert_eq!(stream.header(), (1, 10));
    assert_eq!(datagram(&mut stream, &[5]), before);
    assert_eq!(stream.send_count(), 1);
}

#[test]
fn progress_is_reported_every_500_datagrams() {
    let mut stream = DatagramStream::new();
    for n in 1u64..=1000 {
        let expected = if n % 500 == 0 { Delivery::SentWithReport } else { Delivery::Sent };
        datagram(&mut stream, &[7]);
        assert_eq!(stream.delivered(true), expected);
    }
    assert_eq!(stream.send_count(), 1000);
}

#[test]
fn stream_follows_the_audio_channel() {
    let mut stream = DatagramStream::new();
    assert!(matches!(stream.on_event(chunk(&[])), StreamAction::Wait));
    assert!(matches!(stream.on_event(AudioEvent::Lagged(9)), StreamAction::Wait));
    assert!(matches!(stream.on_event(AudioEvent::Closed), StreamAction::Stop));
    datagram(&mut stream, &[0; 480]);
    assert_eq!(stream.delivered(true), Delivery::Sent);
    let bytes = datagram(&mut stream, &[-1, 258]);
    assert_eq!(bytes, [1, 0, 0, 0, 0xe0, 1, 0, 0, 0xff, 0xff, 2, 1]);
}
