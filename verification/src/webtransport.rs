//! Streaming raw samples in datagrams, and the certificate hash that browsers ask for.
use vstd::arithmetic::div_mod::lemma_add_mod_noop;
use vstd::prelude::*;

use crate::audio::{hear, AudioEvent, Heard};

verus! {

/// The Base64 character of a six-bit value.
pub open spec fn base64_char(v: int) -> char
    recommends
        0 <= v < 64,
{
    if v < 26 {
        ('A' as int + v) as char
    } else if v < 52 {
        ('a' as int + v - 26) as char
    } else if v < 62 {
        ('0' as int + v - 52) as char
    } else if v == 62 {
        '+'
    } else {
        '/'
    }
}

/// The six bits with number `i` of `bytes`, from the front; bits past the end are zero.
pub open spec fn sextet(bytes: Seq<u8>, i: int) -> int {
    let at = 6 * i / 8;
    let high = bytes[at] as int;
    let low = if at + 1 < bytes.len() {
        bytes[at + 1] as int
    } else {
        0
    };
    let window = high * 256 + low;
    let skipped = 6 * i % 8;
    let aligned = if skipped == 0 {
        window / 1024
    } else if skipped == 2 {
        window / 256
    } else if skipped == 4 {
        window / 64
    } else {
        window / 16
    };
    aligned % 64
}

/// The Base64 text of `bytes` in the standard alphabet, padded with `=` to a multiple of four
/// characters.
pub open spec fn base64_text(bytes: Seq<u8>) -> Seq<char> {
    Seq::new(
        4 * ((bytes.len() + 2) / 3) as nat,
        |i: int|
            if 6 * i < 8 * bytes.len() {
                base64_char(sextet(bytes, i))
            } else {
                '='
            },
    )
}

/// `base64::Engine::encode` with the engine `STANDARD`: the text is the Base64 encoding of the
/// digest in the standard alphabet, with padding.
#[verifier::external_body]
fn encode_base64(digest: &[u8; 32]) -> (r: String)
    ensures
        r@ == base64_text(digest@),
{
    base64::Engine::encode(&base64::engine::general_purpose::STANDARD, digest)
}

/// A certificate.
#[verifier::external_type_specification]
#[verifier::external_body]
pub struct ExCertificate(wtransport::tls::Certificate);

/// The chain of certificates of a server's identity.
#[verifier::external_type_specification]
#[verifier::external_body]
pub struct ExCertificateChain(wtransport::tls::CertificateChain);

/// The bytes of a certificate: its DER encoding.
pub uninterp spec fn certificate_bytes(certificate: wtransport::tls::Certificate) -> Seq<u8>;

/// The certificates of a chain in order, each as its DER encoding.
pub uninterp spec fn chain_certificates(chain: wtransport::tls::CertificateChain) -> Seq<Seq<u8>>;

/// The SHA-256 digest of `bytes`.
pub uninterp spec fn sha256(bytes: Seq<u8>) -> Seq<u8>;

/// `CertificateChain::as_slice` of the crate `wtransport`: the certificates of the chain, in order.
pub assume_specification[ wtransport::tls::CertificateChain::as_slice ](
    chain: &wtransport::tls::CertificateChain,
) -> (r: &[wtransport::tls::Certificate])
    ensures
        r@.len() == chain_certificates(*chain).len(),
        forall|i: int|
            0 <= i < r@.len() ==> certificate_bytes(#[trigger] r@[i]) == chain_certificates(*chain)[i],
;

/// `Certificate::hash` of the crate `wtransport`: the SHA-256 digest of the certificate's DER
/// encoding.
#[verifier::external_body]
fn certificate_digest(certificate: &wtransport::tls::Certificate) -> (r: [u8; 32])
    ensures
        r@ == sha256(certificate_bytes(*certificate)),
{
    *certificate.hash().as_ref()
}

/// What browsers need to know to connect.
#[derive(Debug, Clone)]
pub struct WebTransportState {
    pub cert_hash: String,
}

/// Why the server cannot start.
#[derive(Debug, Clone, Copy, PartialEq, Eq, Structural)]
pub enum WebTransportError {
    /// The identity holds no certificate.
    NoCertificate,
}

impl WebTransportError {
    /// Describes the error in one sentence.
    pub fn message(&self) -> (r: String)
        ensures
            r@ == "No certificate in chain"@,
    {
        "No certificate in chain".to_string()
    }
}

/// The server's settings.
#[derive(Debug)]
pub struct WebTransportServer {
    pub port: u16,
}

impl WebTransportServer {
    /// A server on the given port.
    pub fn new(port: u16) -> (r: WebTransportServer)
        ensures
            r.port == port,
    {
        WebTransportServer { port }
    }

    /// The address to listen on: all interfaces.
    pub fn bind_address(&self) -> (r: ([u8; 4], u16))
        ensures
            r.0@ == seq![0u8, 0u8, 0u8, 0u8],
            r.1 == self.port,
    {
        let octets: [u8; 4] = [0, 0, 0, 0];
        assert(octets@ =~= seq![0u8, 0u8, 0u8, 0u8]);
        (octets, self.port)
    }

    /// Publishes a digest as text, in place of what was published before. Without a digest there
    /// is nothing to publish.
    pub fn publish_digest(
        &self,
        digest: Option<[u8; 32]>,
        state: &mut Option<WebTransportState>,
    ) -> (r: Result<(), WebTransportError>)
        ensures
            match digest {
                Some(d) => {
                    &&& r is Ok
                    &&& *final(state) matches Some(s)
                    &&& s.cert_hash@ == base64_text(d@)
                    &&& s.cert_hash@.len() == 44
                },
                None => {
                    &&& r == Err::<(), WebTransportError>(WebTransportError::NoCertificate)
                    &&& *final(state) == *old(state)
                },
            },
    {
        match digest {
            Some(d) => {
                let cert_hash = encode_base64(&d);
                *state = Some(WebTransportState { cert_hash });
                Ok(())
            },
            None => Err(WebTransportError::NoCertificate),
        }
    }

    /// Publishes the hash of the first certificate of the server's identity, so that browsers can
    /// be told to accept it.
    pub fn publish(
        &self,
        chain: &wtransport::tls::CertificateChain,
        state: &mut Option<WebTransportState>,
    ) -> (r: Result<(), WebTransportError>)
        ensures
            if chain_certificates(*chain).len() > 0 {
                &&& r is Ok
                &&& *final(state) matches Some(s)
                &&& s.cert_hash@ == base64_text(sha256(chain_certificates(*chain)[0]))
                &&& s.cert_hash@.len() == 44
            } else {
                &&& r == Err::<(), WebTransportError>(WebTransportError::NoCertificate)
                &&& *final(state) == *old(state)
            },
    {
        let certificates = chain.as_slice();
        if certificates.len() == 0 {
            self.publish_digest(None, state)
        } else {
            self.publish_digest(Some(certificate_digest(&certificates[0])), state)
        }
    }
}

proof fn lemma_base64_char_injective(a: int, b: int)
    requires
        0 <= a < 64,
        0 <= b < 64,
        base64_char(a) == base64_char(b),
    ensures
        a == b,
{
}

proof fn lemma_window(high: u8, low: u8)
    ensures
        (high * 256 + low) / 1024 % 64 == high / 4,
        (high * 256 + low) / 16 % 64 == (high % 4) * 16 + low / 16,
        (high * 256 + low) / 64 % 64 == (high % 16) * 4 + low / 64,
        (high * 256 + low) / 256 % 64 == high % 64,
{
    assert((high * 256 + low) / 1024 % 64 == high / 4) by (bit_vector);
    assert((high * 256 + low) / 16 % 64 == (high % 4) * 16 + low / 16) by (bit_vector);
    assert((high * 256 + low) / 64 % 64 == (high % 16) * 4 + low / 64) by (bit_vector);
    assert((high * 256 + low) / 256 % 64 == high % 64) by (bit_vector);
}

proof fn lemma_sextets(bytes: Seq<u8>, g: int)
    requires
        0 <= g,
        3 * g < bytes.len(),
    ensures
        sextet(bytes, 4 * g) == bytes[3 * g] / 4,
        3 * g + 1 < bytes.len() ==> sextet(bytes, 4 * g + 1) == (bytes[3 * g] % 4) * 16 + bytes[3 * g
            + 1] / 16,
        3 * g + 1 == bytes.len() ==> sextet(bytes, 4 * g + 1) == (bytes[3 * g] % 4) * 16,
        3 * g + 2 < bytes.len() ==> sextet(bytes, 4 * g + 2) == (bytes[3 * g + 1] % 16) * 4
            + bytes[3 * g + 2] / 64,
        3 * g + 2 == bytes.len() ==> sextet(bytes, 4 * g + 2) == (bytes[3 * g + 1] % 16) * 4,
        3 * g + 2 < bytes.len() ==> sextet(bytes, 4 * g + 3) == bytes[3 * g + 2] % 64,
{
    assert(6 * (4 * g) / 8 == 3 * g && 6 * (4 * g) % 8 == 0);
    assert(6 * (4 * g + 1) / 8 == 3 * g && 6 * (4 * g + 1) % 8 == 6);
    assert(6 * (4 * g + 2) / 8 == 3 * g + 1 && 6 * (4 * g + 2) % 8 == 4);
    assert(6 * (4 * g + 3) / 8 == 3 * g + 2 && 6 * (4 * g + 3) % 8 == 2);
    let b0 = bytes[3 * g];
    let b1 = if 3 * g + 1 < bytes.len() {
        bytes[3 * g + 1]
    } else {
        0u8
    };
    let b2 = if 3 * g + 2 < bytes.len() {
        bytes[3 * g + 2]
    } else {
        0u8
    };
    let b3 = if 3 * g + 3 < bytes.len() {
        bytes[3 * g + 3]
    } else {
        0u8
    };
    lemma_window(b0, b1);
    lemma_window(b1, b2);
    lemma_window(b2, b3);
}

/// The published hash identifies the certificate: two digests of one length with the same text are
/// the same digest.
pub proof fn hash_text_identifies_the_digest(a: Seq<u8>, b: Seq<u8>)
    requires
        a.len() == b.len(),
        base64_text(a) == base64_text(b),
    ensures
        a == b,
{
    assert forall|i: int| 0 <= i && 6 * i < 8 * a.len() implies #[trigger] sextet(a, i) == sextet(
        b,
        i,
    ) by {
        assert(0 <= i < base64_text(a).len());
        assert(base64_text(a)[i] == base64_char(sextet(a, i)));
        assert(base64_text(b)[i] == base64_char(sextet(b, i)));
        lemma_base64_char_injective(sextet(a, i), sextet(b, i));
    }
    assert forall|j: int| 0 <= j < a.len() implies a[j] == b[j] by {
        let g = j / 3;
        lemma_sextets(a, g);
        lemma_sextets(b, g);
        assert(sextet(a, 4 * g) == sextet(b, 4 * g));
        assert(sextet(a, 4 * g + 1) == sextet(b, 4 * g + 1));
        if 3 * g + 1 < a.len() {
            assert(sextet(a, 4 * g + 2) == sextet(b, 4 * g + 2));
        }
        if 3 * g + 2 < a.len() {
            assert(sextet(a, 4 * g + 3) == sextet(b, 4 * g + 3));
        }
    }
    assert(a =~= b);
}

/// The length of a datagram's header in bytes: the sequence number of the packet and the number of
/// its first sample since the stream began, 4 bytes each, lowest byte first.
pub const HEADER_SIZE: usize = 8;

/// One more than the largest 32-bit number.
pub open spec fn u32_range() -> int {
    0x1_0000_0000
}

/// The bytes of a 32-bit number, lowest first.
pub open spec fn u32_bytes(v: u32) -> Seq<u8> {
    seq![
        (v % 256) as u8,
        (v / 256 % 256) as u8,
        (v / 65536 % 256) as u8,
        (v / 16777216) as u8,
    ]
}

/// The sixteen bits of a sample, as a number that is not negative.
pub open spec fn sample_bits(sample: i16) -> int {
    if sample < 0 {
        sample + 65536
    } else {
        sample as int
    }
}

/// The bytes of the samples, two for each, lowest first.
pub open spec fn sample_bytes(samples: Seq<i16>) -> Seq<u8> {
    Seq::new(
        2 * samples.len(),
        |k: int|
            if k % 2 == 0 {
                (sample_bits(samples[k / 2]) % 256) as u8
            } else {
                (sample_bits(samples[k / 2]) / 256) as u8
            },
    )
}

/// A datagram: the header, and behind it the samples.
pub open spec fn datagram_bytes(seq: u32, timestamp: u32, samples: Seq<i16>) -> Seq<u8> {
    u32_bytes(seq) + u32_bytes(timestamp) + sample_bytes(samples)
}

/// Puts the bytes of `v` behind `out`.
fn push_u32(out: &mut Vec<u8>, v: u32)
    ensures
        final(out)@ == old(out)@ + u32_bytes(v),
{
    out.push((v % 256) as u8);
    out.push((v / 256 % 256) as u8);
    out.push((v / 65536 % 256) as u8);
    out.push((v / 16777216) as u8);
    assert(out@ =~= old(out)@ + u32_bytes(v));
}

/// What to do about an event of the audio channel.
#[derive(Debug)]
pub enum StreamAction {
    /// Wait for the next event.
    Wait,
    /// Send this datagram.
    Send(Vec<u8>),
    /// End the stream.
    Stop,
}

/// What became of a datagram.
#[derive(Debug, Clone, Copy, PartialEq, Eq, Structural)]
pub enum Delivery {
    /// It was sent.
    Sent,
    /// It was sent, and the progress is worth a line in the log.
    SentWithReport,
    /// The connection is closed, and the stream ends.
    Closed,
}

/// Numbers the datagrams of a stream and fills them.
pub struct DatagramStream {
    send_count: u64,
    seq: u32,
    sample_offset: u32,
    pending: Option<usize>,
    total_samples: Ghost<nat>,
}

impl DatagramStream {
    /// The number of datagrams sent.
    pub closed spec fn sent(self) -> nat {
        self.send_count as nat
    }

    /// The number of samples sent.
    pub closed spec fn samples_sent(self) -> nat {
        self.total_samples@
    }

    /// The sequence number of the next datagram.
    pub closed spec fn next_seq(self) -> u32 {
        self.seq
    }

    /// The timestamp of the next datagram.
    pub closed spec fn next_timestamp(self) -> u32 {
        self.sample_offset
    }

    /// The number of samples in the datagram that was made last, until its fate is known.
    pub closed spec fn pending(self) -> Option<usize> {
        self.pending
    }

    /// The header shows what was sent before: the number of datagrams, and the number of samples,
    /// each in 32 bits.
    pub open spec fn wf(self) -> bool {
        &&& self.next_seq() == self.sent() as int % u32_range()
        &&& self.next_timestamp() == self.samples_sent() as int % u32_range()
    }

    /// Starts with nothing sent.
    pub fn new() -> (r: DatagramStream)
        ensures
            r.wf(),
            r.sent() == 0,
            r.samples_sent() == 0,
            r.pending() is None,
    {
        DatagramStream {
            send_count: 0,
            seq: 0,
            sample_offset: 0,
            pending: None,
            total_samples: Ghost(0),
        }
    }

    /// The datagram for the samples of a chunk.
    fn datagram(&self, samples: &[i16]) -> (r: Vec<u8>)
        ensures
            r@ == datagram_bytes(self.next_seq(), self.next_timestamp(), samples@),
    {
        let n: usize = samples.len();
        let mut r: Vec<u8> = Vec::new();
        push_u32(&mut r, self.seq);
        push_u32(&mut r, self.sample_offset);
        let ghost header = r@;
        let mut i: usize = 0;
        assert(header + sample_bytes(samples@.take(0)) =~= header);
        while i < n
            invariant
                n == samples@.len(),
                i <= n,
                r@ == header + sample_bytes(samples@.take(i as int)),
            decreases n - i,
        {
            let sample: i16 = samples[i];
            let bits: u32 = if sample < 0 {
                (sample as i32 + 65536) as u32
            } else {
                sample as u32
            };
            r.push((bits % 256) as u8);
            r.push((bits / 256) as u8);
            assert(r@ =~= header + sample_bytes(samples@.take(i + 1))) by {
                assert forall|k: int| 0 <= k < 2 * (i + 1) implies r@[header.len() + k]
                    == #[trigger] sample_bytes(samples@.take(i + 1))[k] by {
                    if k < 2 * i {
                        assert(sample_bytes(samples@.take(i as int))[k] == r@[header.len() + k]);
                    }
                }
            }
            i += 1;
        }
        assert(samples@.take(n as int) =~= samples@);
        r
    }

    /// What to do about an event of the audio channel: samples are sent, empty and lost chunks are
    /// passed over, and the end of the audio is the end of the stream. How many samples a datagram
    /// holds is remembered for [`DatagramStream::delivered`].
    pub fn on_event(&mut self, event: AudioEvent<i16>) -> (r: StreamAction)
        requires
            old(self).wf(),
        ensures
            final(self).wf(),
            final(self).sent() == old(self).sent(),
            final(self).samples_sent() == old(self).samples_sent(),
            match event {
                AudioEvent::Chunk(chunk) => if chunk.samples@.len() == 0 {
                    r is Wait && *final(self) == *old(self)
                } else {
                    &&& r matches StreamAction::Send(bytes)
                    &&& bytes@ == datagram_bytes(
                        old(self).next_seq(),
                        old(self).next_timestamp(),
                        chunk.samples@,
                    )
                    &&& final(self).pending() matches Some(count)
                    &&& count == chunk.samples@.len()
                },
                AudioEvent::Lagged(_) => r is Wait && *final(self) == *old(self),
                AudioEvent::Closed => r is Stop && *final(self) == *old(self),
            },
    {
        match hear(event) {
            Heard::Samples(chunk) => {
                let bytes = self.datagram(chunk.samples.as_slice());
                self.pending = Some(chunk.samples.len());
                StreamAction::Send(bytes)
            },
            Heard::Nothing => StreamAction::Wait,
            Heard::End => StreamAction::Stop,
        }
    }

    /// Takes note of what became of the datagram that was made last. If it was sent, it moves the
    /// header on, by one and by its number of samples; if not, the header stays as it is. Every
    /// 500 datagrams there is something to report.
    pub fn delivered(&mut self, ok: bool) -> (r: Delivery)
        requires
            old(self).wf(),
            old(self).pending() is Some,
            ok ==> old(self).sent() < u64::MAX,
        ensures
            final(self).wf(),
            final(self).pending() is None,
            if ok {
                &&& final(self).sent() == old(self).sent() + 1
                &&& final(self).samples_sent() == old(self).samples_sent() + old(self).pending()->0
                &&& r == if final(self).sent() % 500 == 0 {
                    Delivery::SentWithReport
                } else {
                    Delivery::Sent
                }
            } else {
                &&& final(self).sent() == old(self).sent()
                &&& final(self).samples_sent() == old(self).samples_sent()
                &&& r == Delivery::Closed
            },
    {
        let samples: usize = match self.pending {
            Some(count) => count,
            None => 0,
        };
        self.pending = None;
        if !ok {
            return Delivery::Closed;
        }
        let count: u32 = (samples as u64 % 0x1_0000_0000) as u32;
        proof {
            lemma_add_mod_noop(self.send_count as int, 1, u32_range());
            lemma_add_mod_noop(self.total_samples@ as int, samples as int, u32_range());
            self.total_samples@ = self.total_samples@ + samples as nat;
        }
        self.seq = ((self.seq as u64 + 1) % 0x1_0000_0000) as u32;
        self.sample_offset = ((self.sample_offset as u64 + count as u64) % 0x1_0000_0000) as u32;
        self.send_count = self.send_count + 1;
        if self.send_count % 500 == 0 {
            Delivery::SentWithReport
        } else {
            Delivery::Sent
        }
    }

    /// The sequence number and the timestamp of the next datagram.
    pub fn header(&self) -> (r: (u32, u32))
        ensures
            r.0 == self.next_seq(),
            r.1 == self.next_timestamp(),
    {
        (self.seq, self.sample_offset)
    }

    /// The number of datagrams sent.
    pub fn send_count(&self) -> (r: u64)
        ensures
            r == self.sent(),
    {
        self.send_count
    }
}

/// The 32-bit number at place `at` of a datagram.
pub open spec fn read_u32(bytes: Seq<u8>, at: int) -> int {
    bytes[at] + bytes[at + 1] * 256 + bytes[at + 2] * 65536 + bytes[at + 3] * 16777216
}

/// The sample with number `i` of a datagram.
pub open spec fn read_sample(bytes: Seq<u8>, i: int) -> int {
    let bits = bytes[HEADER_SIZE + 2 * i] + bytes[HEADER_SIZE + 2 * i + 1] * 256;
    if bits >= 32768 {
        bits - 65536
    } else {
        bits
    }
}

/// The four bytes of a number make up the number.
proof fn lemma_u32_reads_back(v: u32)
    ensures
        u32_bytes(v)[0] + u32_bytes(v)[1] * 256 + u32_bytes(v)[2] * 65536 + u32_bytes(v)[3]
            * 16777216 == v,
{
    assert(v % 256 + (v / 256 % 256) * 256 + (v / 65536 % 256) * 65536 + (v / 16777216) * 16777216
        == v) by (bit_vector);
    assert(v / 16777216 < 256) by (bit_vector);
}

/// The two bytes of a sample make up the sample.
proof fn lemma_sample_reads_back(samples: Seq<i16>, i: int)
    requires
        0 <= i < samples.len(),
    ensures
        sample_bytes(samples)[2 * i] + sample_bytes(samples)[2 * i + 1] * 256 == sample_bits(
            samples[i],
        ),
        0 <= sample_bits(samples[i]) < 65536,
{
    assert((2 * i) / 2 == i && (2 * i + 1) / 2 == i && (2 * i) % 2 == 0 && (2 * i + 1) % 2 == 1);
    let bits = sample_bits(samples[i]);
    assert(sample_bytes(samples)[2 * i] == (bits % 256) as u8);
    assert(sample_bytes(samples)[2 * i + 1] == (bits / 256) as u8);
}

/// A receiver reads back what was put in: the sequence number, the timestamp, and every sample.
pub proof fn datagram_reads_back(seq: u32, timestamp: u32, samples: Seq<i16>)
    ensures
        datagram_bytes(seq, timestamp, samples).len() == HEADER_SIZE + 2 * samples.len(),
        read_u32(datagram_bytes(seq, timestamp, samples), 0) == seq,
        read_u32(datagram_bytes(seq, timestamp, samples), 4) == timestamp,
        forall|i: int|
            0 <= i < samples.len() ==> read_sample(datagram_bytes(seq, timestamp, samples), i)
                == #[trigger] samples[i],
{
    let bytes = datagram_bytes(seq, timestamp, samples);
    assert(read_u32(bytes, 0) == seq) by {
        lemma_u32_reads_back(seq);
        assert(bytes[0] == u32_bytes(seq)[0] && bytes[1] == u32_bytes(seq)[1] && bytes[2]
            == u32_bytes(seq)[2] && bytes[3] == u32_bytes(seq)[3]);
    }
    assert(read_u32(bytes, 4) == timestamp) by {
        lemma_u32_reads_back(timestamp);
        assert(bytes[4] == u32_bytes(timestamp)[0] && bytes[5] == u32_bytes(timestamp)[1]
            && bytes[6] == u32_bytes(timestamp)[2] && bytes[7] == u32_bytes(timestamp)[3]);
    }
    assert forall|i: int| 0 <= i < samples.len() implies read_sample(bytes, i)
        == #[trigger] samples[i] by {
        assert(bytes[HEADER_SIZE + 2 * i] == sample_bytes(samples)[2 * i]);
        assert(bytes[HEADER_SIZE + 2 * i + 1] == sample_bytes(samples)[2 * i + 1]);
        lemma_sample_reads_back(samples, i);
    }
}

/// What a stream has sent after a run of chunks: its datagrams, and how many samples they hold.
pub struct StreamRun {
    pub datagrams: Seq<Seq<u8>>,
    pub samples: nat,
}

/// The datagrams that a stream sends for a run of chunks, all of them delivered. Empty chunks are
/// passed over.
pub open spec fn streamed(chunks: Seq<Seq<i16>>) -> StreamRun
    decreases chunks.len(),
{
    if chunks.len() == 0 {
        StreamRun { datagrams: seq![], samples: 0 }
    } else {
        let before = streamed(chunks.drop_last());
        let chunk = chunks.last();
        if chunk.len() == 0 {
            before
        } else {
            StreamRun {
                datagrams: before.datagrams.push(
                    datagram_bytes(
                        (before.datagrams.len() as int % u32_range()) as u32,
                        (before.samples as int % u32_range()) as u32,
                        chunk,
                    ),
                ),
                samples: before.samples + chunk.len(),
            }
        }
    }
}

/// The chunks that hold samples, in order.
pub open spec fn with_samples(chunks: Seq<Seq<i16>>) -> Seq<Seq<i16>>
    decreases chunks.len(),
{
    if chunks.len() == 0 {
        seq![]
    } else {
        let before = with_samples(chunks.drop_last());
        if chunks.last().len() == 0 {
            before
        } else {
            before.push(chunks.last())
        }
    }
}

/// The number of samples in the chunks.
pub open spec fn sample_count(chunks: Seq<Seq<i16>>) -> nat
    decreases chunks.len(),
{
    if chunks.len() == 0 {
        0
    } else {
        sample_count(chunks.drop_last()) + chunks.last().len()
    }
}

/// Whether the datagram with number `k` says so, and carries the number of samples before it, each
/// in 32 bits, and the samples of the chunk with number `k`.
pub open spec fn carries(datagram: Seq<u8>, heard: Seq<Seq<i16>>, k: int) -> bool {
    &&& datagram.len() == HEADER_SIZE + 2 * heard[k].len()
    &&& read_u32(datagram, 0) == k % u32_range()
    &&& read_u32(datagram, 4) == sample_count(heard.take(k)) as int % u32_range()
    &&& forall|i: int|
        0 <= i < heard[k].len() ==> read_sample(datagram, i) == #[trigger] heard[k][i]
}

/// Over a whole stream there is one datagram for each chunk that holds samples, in order. Datagram
/// `k` carries the number `k`, the number of samples before it, and the samples of its chunk.
pub proof fn stream_carries_the_audio(chunks: Seq<Seq<i16>>)
    ensures
        streamed(chunks).datagrams.len() == with_samples(chunks).len(),
        streamed(chunks).samples == sample_count(with_samples(chunks)),
        forall|k: int|
            0 <= k < streamed(chunks).datagrams.len() ==> carries(
                #[trigger] streamed(chunks).datagrams[k],
                with_samples(chunks),
                k,
            ),
    decreases chunks.len(),
{
    if chunks.len() > 0 {
        let front = chunks.drop_last();
        stream_carries_the_audio(front);
        let before = with_samples(front);
        let heard = with_samples(chunks);
        let chunk = chunks.last();
        if chunk.len() > 0 {
            let n = before.len() as int;
            assert(heard.drop_last() =~= before);
            assert(heard.take(n) =~= before);
            datagram_reads_back(
                (n % u32_range()) as u32,
                (sample_count(before) as int % u32_range()) as u32,
                chunk,
            );
            assert forall|k: int| 0 <= k < streamed(chunks).datagrams.len() implies carries(
                #[trigger] streamed(chunks).datagrams[k],
                heard,
                k,
            ) by {
                if k < n {
                    assert(carries(streamed(front).datagrams[k], before, k));
                    assert(heard[k] == before[k]);
                    assert(heard.take(k) =~= before.take(k));
                }
            }
        }
    }
}

/// A stream sends as the run of chunks says: where it stands after the chunks so far, the datagram
/// that it makes of the next chunk is the next one of [`streamed`], and when that is delivered the
/// stream stands where the longer run does.
pub proof fn stream_follows_the_run(stream: DatagramStream, chunks: Seq<Seq<i16>>, chunk: Seq<i16>)
    requires
        stream.wf(),
        stream.sent() == streamed(chunks).datagrams.len(),
        stream.samples_sent() == streamed(chunks).samples,
    ensures
        chunk.len() == 0 ==> streamed(chunks.push(chunk)) == streamed(chunks),
        chunk.len() > 0 ==> {
            let after = streamed(chunks.push(chunk));
            &&& after.datagrams == streamed(chunks).datagrams.push(
                datagram_bytes(stream.next_seq(), stream.next_timestamp(), chunk),
            )
            &&& after.datagrams.len() == stream.sent() + 1
            &&& after.samples == stream.samples_sent() + chunk.len()
        },
{
    assert(chunks.push(chunk).drop_last() =~= chunks);
}

/// A receiver can tell how many datagrams are missing between two that arrive, as long as fewer
/// than 2^32 are: the difference of their sequence numbers says it.
pub proof fn gaps_can_be_counted(first: DatagramStream, later: DatagramStream)
    requires
        first.wf(),
        later.wf(),
        first.sent() <= later.sent(),
        later.sent() - first.sent() < u32_range(),
    ensures
        (later.next_seq() - first.next_seq()) % u32_range() == later.sent() - first.sent(),
{
    vstd::arithmetic::div_mod::lemma_sub_mod_noop(
        later.sent() as int,
        first.sent() as int,
        u32_range(),
    );
}

/// Where everything stands in a datagram: the sequence number in the first four bytes, the
/// timestamp in the next four, and behind them two bytes for each sample, the lowest byte first
/// everywhere.
pub proof fn datagram_is_laid_out(seq: u32, timestamp: u32, samples: Seq<i16>, i: int)
    requires
        0 <= i < samples.len(),
    ensures
        ({
            let bytes = datagram_bytes(seq, timestamp, samples);
            let low = bytes[8 + 2 * i];
            let high = bytes[9 + 2 * i];
            &&& bytes.len() == 8 + 2 * samples.len()
            &&& bytes[0] + 256 * bytes[1] + 65536 * bytes[2] + 16777216 * bytes[3] == seq
            &&& bytes[4] + 256 * bytes[5] + 65536 * bytes[6] + 16777216 * bytes[7] == timestamp
            &&& samples[i] >= 0 ==> low + 256 * high == samples[i]
            &&& samples[i] < 0 ==> low + 256 * high == samples[i] + 65536
        }),
{
    datagram_reads_back(seq, timestamp, samples);
    let bytes = datagram_bytes(seq, timestamp, samples);
    assert(bytes[8 + 2 * i] == sample_bytes(samples)[2 * i]);
    assert(bytes[9 + 2 * i] == sample_bytes(samples)[2 * i + 1]);
    lemma_sample_reads_back(samples, i);
}

/// The header shows how many datagrams and samples were sent before, each in 32 bits.
pub proof fn header_counts_in_32_bits(stream: DatagramStream)
    requires
        stream.wf(),
    ensures
        stream.next_seq() == stream.sent() % 4294967296,
        stream.next_timestamp() == stream.samples_sent() % 4294967296,
{
}

} // verus!
