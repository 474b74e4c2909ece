//! The byte level of the GDB remote protocol: sending a packet, waiting for its
//! acknowledgement, and reading checksummed packets until a response has come.
//!
//! The link is driven one byte at a time. Each byte received says what to write back and
//! whether the exchange is over.
use vstd::prelude::*;
use vstd::utf8::{decode_utf8, encode_scalar, encode_utf8, valid_utf8};

use super::gdb_protocol::{
    byte_sum, checksum_of, encode_packet, hex_byte_of, hex_text_of, is_console_output,
    is_console_output_packet, lemma_hex_text_bytes, packet_checksum, packet_of, parse_hex_byte,
};
use crate::number::{hex_padded_of, push_hex_padded};
use crate::target::TargetError;

verus! {

/// What the error of `String::from_utf8` says of bytes.
pub uninterp spec fn utf8_fault(bytes: Seq<u8>) -> Seq<char>;

/// `String::from_utf8` succeeds exactly on well-formed UTF-8, and the string's bytes are then
/// the given ones. The wording of its error is left to `std` and named as a function of the
/// bytes.
#[verifier::external_body]
fn text_of(bytes: Vec<u8>) -> (r: Result<String, String>)
    ensures
        r is Ok <==> valid_utf8(bytes@),
        r matches Ok(s) ==> encode_utf8(s@) == bytes@,
        r matches Err(e) ==> e@ == utf8_fault(bytes@),
{
    String::from_utf8(bytes).map_err(|e| e.to_string())
}

// ---------------------------------------------------------------------------
// Reading one packet

/// Where in a packet the reader is.
#[derive(Clone, Copy, Debug, PartialEq, Eq, Structural)]
pub enum ReadPhase {
    /// Skipping bytes up to the `$` that starts a packet.
    Seeking,
    /// Collecting the payload up to `#`.
    Payload,
    /// Waiting for the first checksum digit.
    High,
    /// Waiting for the second checksum digit; the first one is held.
    Low(u8),
}

/// Reads packets from single bytes.
#[derive(Debug)]
pub struct PacketReader {
    pub phase: ReadPhase,
    pub payload: Vec<u8>,
}

/// What one more byte has brought.
#[derive(Debug)]
pub enum Received {
    /// The packet goes on.
    More,
    /// The checksum digits are no hex digits.
    Malformed(TargetError),
    /// The checksum does not match.
    Corrupt(TargetError),
    /// A packet with a good checksum; its payload may still not be text.
    Complete(Result<String, TargetError>),
}

/// The state of a reader.
#[verifier::ext_equal]
pub struct ReaderState {
    pub phase: ReadPhase,
    pub payload: Seq<u8>,
}

/// What one more byte has brought, with texts as character sequences.
pub enum Receipt {
    More,
    Malformed(Seq<Seq<char>>),
    Corrupt(Seq<Seq<char>>),
    Complete(Result<Seq<char>, Seq<Seq<char>>>),
}

impl View for PacketReader {
    type V = ReaderState;

    open spec fn view(&self) -> ReaderState {
        ReaderState { phase: self.phase, payload: self.payload@ }
    }
}

impl View for Received {
    type V = Receipt;

    open spec fn view(&self) -> Receipt {
        match self {
            Received::More => Receipt::More,
            Received::Malformed(e) => Receipt::Malformed(e@),
            Received::Corrupt(e) => Receipt::Corrupt(e@),
            Received::Complete(Ok(s)) => Receipt::Complete(Ok(s@)),
            Received::Complete(Err(e)) => Receipt::Complete(Err(e@)),
        }
    }
}

/// A reader that waits for the start of a packet.
pub open spec fn seeking() -> ReaderState {
    ReaderState { phase: ReadPhase::Seeking, payload: Seq::empty() }
}

/// The complaint about a checksum.
pub open spec fn bad_checksum(expected: u8, actual: u8) -> Seq<Seq<char>> {
    seq![
        "bad GDB remote checksum: expected 0x"@ + hex_padded_of(expected as nat, 2) + ", got 0x"@
            + hex_padded_of(actual as nat, 2),
    ]
}

/// The state of a reader after one more byte, and what the byte has brought.
pub open spec fn receive_of(st: ReaderState, byte: u8) -> (ReaderState, Receipt) {
    match st.phase {
        ReadPhase::Seeking => if byte == 0x24 {
            (ReaderState { phase: ReadPhase::Payload, payload: Seq::empty() }, Receipt::More)
        } else {
            (st, Receipt::More)
        },
        ReadPhase::Payload => if byte == 0x23 {
            (ReaderState { phase: ReadPhase::High, payload: st.payload }, Receipt::More)
        } else {
            (
                ReaderState { phase: ReadPhase::Payload, payload: st.payload.push(byte) },
                Receipt::More,
            )
        },
        ReadPhase::High => (
            ReaderState { phase: ReadPhase::Low(byte), payload: st.payload },
            Receipt::More,
        ),
        ReadPhase::Low(high) => (
            seeking(),
            match hex_byte_of(high, byte) {
                Err(e) => Receipt::Malformed(e),
                Ok(expected) => if checksum_of(st.payload) != expected {
                    Receipt::Corrupt(bad_checksum(expected, checksum_of(st.payload)))
                } else if valid_utf8(st.payload) {
                    Receipt::Complete(Ok(decode_utf8(st.payload)))
                } else {
                    Receipt::Complete(Err(seq![utf8_fault(st.payload)]))
                },
            },
        ),
    }
}

impl PacketReader {
    /// A reader that waits for the start of a packet.
    pub fn new() -> (r: Self)
        ensures
            r@ == seeking(),
    {
        let r = PacketReader { phase: ReadPhase::Seeking, payload: Vec::new() };
        assert(r@ =~= seeking());
        r
    }

    /// Takes one more byte.
    pub fn receive(&mut self, byte: u8) -> (r: Received)
        ensures
            (final(self)@, r@) == receive_of(old(self)@, byte),
    {
        match self.phase {
            ReadPhase::Seeking => {
                if byte == 0x24 {
                    self.phase = ReadPhase::Payload;
                    self.payload = Vec::new();
                    assert(self.payload@ =~= Seq::<u8>::empty());
                }
                Received::More
            },
            ReadPhase::Payload => {
                if byte == 0x23 {
                    self.phase = ReadPhase::High;
                } else {
                    self.payload.push(byte);
                }
                Received::More
            },
            ReadPhase::High => {
                self.phase = ReadPhase::Low(byte);
                Received::More
            },
            ReadPhase::Low(high) => {
                let mut payload: Vec<u8> = Vec::new();
                std::mem::swap(&mut payload, &mut self.payload);
                self.phase = ReadPhase::Seeking;
                assert(self@ =~= seeking());
                match parse_hex_byte(high, byte) {
                    Err(e) => Received::Malformed(e),
                    Ok(expected) => {
                        let actual: u8 = packet_checksum(payload.as_slice());
                        if actual != expected {
                            let mut message = "bad GDB remote checksum: expected 0x".to_owned();
                            push_hex_padded(&mut message, expected as u64, 2);
                            message.append(", got 0x");
                            push_hex_padded(&mut message, actual as u64, 2);
                            Received::Corrupt(TargetError::new(message))
                        } else {
                            match text_of(payload) {
                                Ok(s) => {
                                    proof {
                                        vstd::utf8::encode_utf8_decode_utf8(s@);
                                    }
                                    Received::Complete(Ok(s))
                                },
                                Err(e) => Received::Complete(Err(TargetError::new(e))),
                            }
                        }
                    },
                }
            },
        }
    }
}

// ---------------------------------------------------------------------------
// One exchange with the remote stub

/// What an exchange waits for.
#[derive(Clone, Copy, Debug, PartialEq, Eq, Structural)]
pub enum LinkPhase {
    /// The acknowledgement of a packet that has been sent this many times.
    Ack(u8),
    /// A packet from the other side.
    Response,
}

/// One exchange: a packet on its way, or only a packet that is waited for.
#[derive(Debug)]
pub struct GdbRemoteConnection {
    pub packet: Vec<u8>,
    pub phase: LinkPhase,
    pub reader: PacketReader,
    pub skip_console: bool,
}

/// What to write, and the end of the exchange where it has come.
#[derive(Debug)]
pub struct LinkStep {
    pub write: Vec<u8>,
    pub outcome: Option<Result<String, TargetError>>,
}

/// The state of an exchange.
#[verifier::ext_equal]
pub struct LinkState {
    pub packet: Seq<u8>,
    pub phase: LinkPhase,
    pub reader: ReaderState,
    pub skip_console: bool,
}

/// How an exchange stands.
pub enum LinkOutcome {
    Pending,
    Packet(Seq<char>),
    Failed(Seq<Seq<char>>),
}

impl View for GdbRemoteConnection {
    type V = LinkState;

    open spec fn view(&self) -> LinkState {
        LinkState {
            packet: self.packet@,
            phase: self.phase,
            reader: self.reader@,
            skip_console: self.skip_console,
        }
    }
}

/// A step of the link does what `write` and `outcome` say.
pub open spec fn step_is(step: LinkStep, write: Seq<u8>, outcome: LinkOutcome) -> bool {
    &&& step.write@ == write
    &&& match outcome {
        LinkOutcome::Pending => step.outcome is None,
        LinkOutcome::Packet(t) => step.outcome matches Some(Ok(s)) && s@ == t,
        LinkOutcome::Failed(e) => step.outcome matches Some(Err(x)) && x@ == e,
    }
}

/// The state of a link after one more byte, what to write, and how the exchange stands.
pub open spec fn link_next(st: LinkState, byte: u8) -> (LinkState, Seq<u8>, LinkOutcome) {
    match st.phase {
        LinkPhase::Ack(sent) => if byte == 0x2b {
            (
                LinkState { phase: LinkPhase::Response, reader: seeking(), ..st },
                Seq::empty(),
                LinkOutcome::Pending,
            )
        } else if byte == 0x2d {
            if sent < 3 {
                (
                    LinkState { phase: LinkPhase::Ack((sent + 1) as u8), ..st },
                    st.packet,
                    LinkOutcome::Pending,
                )
            } else {
                (
                    st,
                    Seq::empty(),
                    LinkOutcome::Failed(seq!["remote target rejected packet three times"@]),
                )
            }
        } else if byte == 0x24 {
            (
                LinkState {
                    phase: LinkPhase::Response,
                    reader: ReaderState { phase: ReadPhase::Payload, payload: Seq::empty() },
                    ..st
                },
                Seq::empty(),
                LinkOutcome::Pending,
            )
        } else {
            (
                st,
                Seq::empty(),
                LinkOutcome::Failed(
                    seq!["unexpected GDB remote ack byte: 0x"@ + hex_padded_of(byte as nat, 2)],
                ),
            )
        },
        LinkPhase::Response => {
            let (reader, receipt) = receive_of(st.reader, byte);
            let next = LinkState { reader, ..st };
            match receipt {
                Receipt::More => (next, Seq::empty(), LinkOutcome::Pending),
                Receipt::Malformed(e) => (next, Seq::empty(), LinkOutcome::Failed(e)),
                Receipt::Corrupt(e) => (next, seq![0x2du8], LinkOutcome::Failed(e)),
                Receipt::Complete(Err(e)) => (next, seq![0x2bu8], LinkOutcome::Failed(e)),
                Receipt::Complete(Ok(text)) => (
                    next,
                    seq![0x2bu8],
                    if st.skip_console && is_console_output(text) {
                        LinkOutcome::Pending
                    } else {
                        LinkOutcome::Packet(text)
                    },
                ),
            }
        },
    }
}

impl GdbRemoteConnection {
    /// Sends a payload and waits for the response. The packet is to be written once by the
    /// caller before the first byte is read.
    pub fn send_packet(payload: &str) -> (r: Self)
        ensures
            r@ == (LinkState {
                packet: encode_utf8(packet_of(payload@)),
                phase: LinkPhase::Ack(1),
                reader: seeking(),
                skip_console: true,
            }),
    {
        let encoded = encode_packet(payload);
        let packet = encoded.as_str().as_bytes_vec();
        GdbRemoteConnection {
            packet,
            phase: LinkPhase::Ack(1),
            reader: PacketReader::new(),
            skip_console: true,
        }
    }

    /// Sends Ctrl-C, which is not acknowledged, and waits for the response.
    pub fn interrupt() -> (r: Self)
        ensures
            r@ == (LinkState {
                packet: seq![3u8],
                phase: LinkPhase::Response,
                reader: seeking(),
                skip_console: true,
            }),
    {
        let mut packet: Vec<u8> = Vec::new();
        packet.push(3);
        assert(packet@ =~= seq![3u8]);
        GdbRemoteConnection {
            packet,
            phase: LinkPhase::Response,
            reader: PacketReader::new(),
            skip_console: true,
        }
    }

    /// Sends nothing and waits for the next packet of any kind.
    pub fn read_packet() -> (r: Self)
        ensures
            r@ == (LinkState {
                packet: Seq::empty(),
                phase: LinkPhase::Response,
                reader: seeking(),
                skip_console: false,
            }),
    {
        let packet: Vec<u8> = Vec::new();
        assert(packet@ =~= Seq::<u8>::empty());
        GdbRemoteConnection {
            packet,
            phase: LinkPhase::Response,
            reader: PacketReader::new(),
            skip_console: false,
        }
    }

    /// Takes one byte from the other side.
    pub fn on_byte(&mut self, byte: u8) -> (r: LinkStep)
        ensures
            final(self)@ == link_next(old(self)@, byte).0,
            step_is(r, link_next(old(self)@, byte).1, link_next(old(self)@, byte).2),
    {
        let mut write: Vec<u8> = Vec::new();
        assert(write@ =~= Seq::<u8>::empty());
        match self.phase {
            LinkPhase::Ack(sent) => {
                if byte == 0x2b {
                    self.phase = LinkPhase::Response;
                    self.reader = PacketReader::new();
                    LinkStep { write, outcome: None }
                } else if byte == 0x2d {
                    if sent < 3 {
                        self.phase = LinkPhase::Ack(sent + 1);
                        let packet = vstd::slice::slice_to_vec(self.packet.as_slice());
                        LinkStep { write: packet, outcome: None }
                    } else {
                        LinkStep {
                            write,
                            outcome: Some(
                                Err(TargetError::of("remote target rejected packet three times")),
                            ),
                        }
                    }
                } else if byte == 0x24 {
                    self.phase = LinkPhase::Response;
                    self.reader = PacketReader { phase: ReadPhase::Payload, payload: Vec::new() };
                    assert(self.reader.payload@ =~= Seq::<u8>::empty());
                    LinkStep { write, outcome: None }
                } else {
                    let mut message = "unexpected GDB remote ack byte: 0x".to_owned();
                    push_hex_padded(&mut message, byte as u64, 2);
                    LinkStep { write, outcome: Some(Err(TargetError::new(message))) }
                }
            },
            LinkPhase::Response => {
                match self.reader.receive(byte) {
                    Received::More => LinkStep { write, outcome: None },
                    Received::Malformed(e) => LinkStep { write, outcome: Some(Err(e)) },
                    Received::Corrupt(e) => {
                        write.push(0x2d);
                        assert(write@ =~= seq![0x2du8]);
                        LinkStep { write, outcome: Some(Err(e)) }
                    },
                    Received::Complete(result) => {
                        write.push(0x2b);
                        assert(write@ =~= seq![0x2bu8]);
                        match result {
                            Err(e) => LinkStep { write, outcome: Some(Err(e)) },
                            Ok(text) => {
                                if self.skip_console && is_console_output_packet(text.as_str()) {
                                    LinkStep { write, outcome: None }
                                } else {
                                    LinkStep { write, outcome: Some(Ok(text)) }
                                }
                            },
                        }
                    },
                }
            },
        }
    }
}

// ---------------------------------------------------------------------------
// What is sent is read

/// An exchange fed with bytes up to its end: the state it reaches, everything it writes, and
/// how it stands.
pub open spec fn feed(st: LinkState, bytes: Seq<u8>) -> (LinkState, Seq<u8>, LinkOutcome)
    decreases bytes.len(),
{
    if bytes.len() == 0 {
        (st, Seq::empty(), LinkOutcome::Pending)
    } else {
        let (next, write, outcome) = link_next(st, bytes[0]);
        match outcome {
            LinkOutcome::Pending => {
                let (last, more, end) = feed(next, bytes.drop_first());
                (last, write + more, end)
            },
            _ => (next, write, outcome),
        }
    }
}

/// The encoding of a text is the encodings of its parts.
pub proof fn lemma_encode_concat(a: Seq<char>, b: Seq<char>)
    ensures
        encode_utf8(a + b) == encode_utf8(a) + encode_utf8(b),
    decreases a.len(),
{
    if a.len() == 0 {
        assert(a + b =~= b);
        assert(encode_utf8(a) + encode_utf8(b) =~= encode_utf8(b));
    } else {
        lemma_encode_concat(a.drop_first(), b);
        assert((a + b).drop_first() =~= a.drop_first() + b);
        assert(encode_utf8(a + b) =~= encode_utf8(a) + encode_utf8(b));
    }
}

/// Only the character `#` has the byte 0x23 in its encoding.
proof fn lemma_no_hash_scalar(c: char)
    requires
        c != '#',
    ensures
        forall|i: int| 0 <= i < encode_scalar(c as u32).len() ==> #[trigger] encode_scalar(c as u32)[i] != 0x23,
{
    let s: u32 = c as u32;
    assert(s <= 0x7f && s != 0x23 ==> (s & 0x7F) as u8 != 0x23) by (bit_vector);
    assert(0xC0u8 | ((s >> 6) & 0x1F) as u8 >= 0x80u8) by (bit_vector);
    assert(0xE0u8 | ((s >> 12) & 0xF) as u8 >= 0x80u8) by (bit_vector);
    assert(0xF0u8 | ((s >> 18) & 0x7) as u8 >= 0x80u8) by (bit_vector);
    assert(0x80u8 | (s & 0x3F) as u8 >= 0x80u8) by (bit_vector);
    assert(0x80u8 | ((s >> 6) & 0x3F) as u8 >= 0x80u8) by (bit_vector);
    assert(0x80u8 | ((s >> 12) & 0x3F) as u8 >= 0x80u8) by (bit_vector);
}

/// A text without `#` is encoded without the byte 0x23.
proof fn lemma_no_hash(s: Seq<char>)
    requires
        !s.contains('#'),
    ensures
        forall|i: int| 0 <= i < encode_utf8(s).len() ==> #[trigger] encode_utf8(s)[i] != 0x23,
    decreases s.len(),
{
    if s.len() > 0 {
        assert(s.contains(s[0]));
        lemma_no_hash_scalar(s[0]);
        assert forall|j: int| 0 <= j < s.drop_first().len() implies #[trigger] s.drop_first()[j]
            != '#' by {
            assert(s.contains(s[j + 1]));
        }
        lemma_no_hash(s.drop_first());
        let head = encode_scalar(s[0] as u32);
        let tail = encode_utf8(s.drop_first());
        assert forall|i: int| 0 <= i < encode_utf8(s).len() implies #[trigger] encode_utf8(s)[i]
            != 0x23 by {
            if i < head.len() {
                assert(encode_utf8(s)[i] == head[i]);
            } else {
                assert(encode_utf8(s)[i] == tail[i - head.len()]);
            }
        }
    }
}

/// Payload bytes are collected until `#` comes.
proof fn lemma_feed_payload(st: LinkState, body: Seq<u8>, rest: Seq<u8>)
    requires
        st.phase == LinkPhase::Response,
        st.reader.phase == ReadPhase::Payload,
        forall|i: int| 0 <= i < body.len() ==> #[trigger] body[i] != 0x23,
    ensures
        feed(st, body + rest) == feed(
            LinkState {
                reader: ReaderState {
                    phase: ReadPhase::Payload,
                    payload: st.reader.payload + body,
                },
                ..st
            },
            rest,
        ),
    decreases body.len(),
{
    if body.len() == 0 {
        assert(body + rest =~= rest);
        assert(st.reader.payload + body =~= st.reader.payload);
    } else {
        let next = link_next(st, body[0]).0;
        assert((body + rest).drop_first() =~= body.drop_first() + rest);
        assert forall|i: int| 0 <= i < body.drop_first().len() implies #[trigger] body.drop_first()[i]
            != 0x23 by {
            assert(body.drop_first()[i] == body[i + 1]);
        }
        lemma_feed_payload(next, body.drop_first(), rest);
        assert(st.reader.payload.push(body[0]) + body.drop_first() =~= st.reader.payload + body);
        let more = feed(next, body.drop_first() + rest).1;
        assert(Seq::<u8>::empty() + more =~= more);
    }
}

/// The bytes of a packet: `$`, the payload, `#` and two digits of its checksum.
proof fn lemma_packet_bytes(payload: Seq<char>) -> (digits: (u8, u8))
    ensures
        encode_utf8(packet_of(payload)) == seq![0x24u8] + encode_utf8(payload) + seq![
            0x23u8,
            digits.0,
            digits.1,
        ],
        hex_byte_of(digits.0, digits.1) == Ok::<u8, Seq<Seq<char>>>(
            checksum_of(encode_utf8(payload)),
        ),
{
    let sum = checksum_of(encode_utf8(payload));
    let tail = hex_text_of(seq![sum]);
    lemma_hex_text_bytes(seq![sum]);
    let end = encode_utf8(tail);
    assert(hex_byte_of(end[2 * 0int], end[2 * 0int + 1]) == Ok::<u8, Seq<Seq<char>>>(
        seq![sum][0],
    ));
    let dollar = seq!['$'];
    let hash = seq!['#'];
    assert(vstd::utf8::is_ascii_chars(dollar));
    assert(vstd::utf8::is_ascii_chars(hash));
    vstd::utf8::is_ascii_chars_encode_utf8(dollar);
    vstd::utf8::is_ascii_chars_encode_utf8(hash);
    assert(encode_utf8(dollar) =~= seq![0x24u8]);
    assert(encode_utf8(hash) =~= seq![0x23u8]);
    lemma_encode_concat(dollar, payload);
    lemma_encode_concat(dollar + payload, hash);
    lemma_encode_concat(dollar + payload + hash, tail);
    assert(encode_utf8(packet_of(payload)) =~= seq![0x24u8] + encode_utf8(payload) + seq![
        0x23u8,
        end[0],
        end[1],
    ]);
    (end[0], end[1])
}

/// A link that waits for a response reads the packet of any payload without `#` as that
/// payload and acknowledges it. Console output is passed over, and the link then waits for the
/// next packet; any other payload ends the exchange.
pub proof fn lemma_reads_what_is_sent(st: LinkState, payload: Seq<char>, rest: Seq<u8>)
    requires
        st.phase == LinkPhase::Response,
        st.reader == seeking(),
        !payload.contains('#'),
    ensures
        feed(st, encode_utf8(packet_of(payload)) + rest) == if st.skip_console
            && is_console_output(payload) {
            (feed(st, rest).0, seq![0x2bu8] + feed(st, rest).1, feed(st, rest).2)
        } else {
            (st, seq![0x2bu8], LinkOutcome::Packet(payload))
        },
{
    let body = encode_utf8(payload);
    let (d1, d2) = lemma_packet_bytes(payload);
    let tail = seq![0x23u8, d1, d2] + rest;
    let all = encode_utf8(packet_of(payload)) + rest;
    assert(all =~= seq![0x24u8] + (body + tail));
    assert(all.drop_first() =~= body + tail);
    lemma_no_hash(payload);
    vstd::utf8::encode_utf8_valid_utf8(payload);
    vstd::utf8::encode_utf8_decode_utf8(payload);
    let s1 = link_next(st, 0x24).0;
    lemma_feed_payload(s1, body, tail);
    let s2 = LinkState {
        reader: ReaderState { phase: ReadPhase::Payload, payload: body },
        ..st
    };
    assert(s1.reader.payload + body =~= body);
    assert(feed(s1, body + tail) == feed(s2, tail));
    let s3 = link_next(s2, 0x23).0;
    let s4 = link_next(s3, d1).0;
    assert(tail.drop_first() =~= seq![d1, d2] + rest);
    assert(tail.drop_first().drop_first() =~= seq![d2] + rest);
    assert(tail.drop_first().drop_first().drop_first() =~= rest);
    assert(link_next(s4, d2).0 =~= st);
    let r4 = feed(s4, tail.drop_first().drop_first());
    assert(feed(s3, tail.drop_first()) == (r4.0, Seq::<u8>::empty() + r4.1, r4.2));
    assert(Seq::<u8>::empty() + r4.1 =~= r4.1);
    assert(feed(s2, tail) == (r4.0, Seq::<u8>::empty() + r4.1, r4.2));
    assert(feed(st, all) == (r4.0, Seq::<u8>::empty() + r4.1, r4.2));
}

/// A packet whose checksum does not match is answered with `-`, and the exchange fails with both
/// checksums.
pub proof fn lemma_wrong_checksum_is_refused(
    st: LinkState,
    body: Seq<u8>,
    high: u8,
    low: u8,
    rest: Seq<u8>,
)
    requires
        st.phase == LinkPhase::Response,
        st.reader == seeking(),
        !body.contains(0x23u8),
        hex_byte_of(high, low) is Ok,
        hex_byte_of(high, low)->Ok_0 != checksum_of(body),
    ensures
        feed(st, seq![0x24u8] + body + seq![0x23u8, high, low] + rest) == (
            st,
            seq![0x2du8],
            LinkOutcome::Failed(bad_checksum(hex_byte_of(high, low)->Ok_0, checksum_of(body))),
        ),
{
    let tail = seq![0x23u8, high, low] + rest;
    let all = seq![0x24u8] + body + seq![0x23u8, high, low] + rest;
    assert(all.drop_first() =~= body + tail);
    assert forall|i: int| 0 <= i < body.len() implies #[trigger] body[i] != 0x23 by {
        assert(body.contains(body[i]));
    }
    let s1 = link_next(st, 0x24).0;
    lemma_feed_payload(s1, body, tail);
    let s2 = LinkState {
        reader: ReaderState { phase: ReadPhase::Payload, payload: body },
        ..st
    };
    assert(s1.reader.payload + body =~= body);
    assert(feed(s1, body + tail) == feed(s2, tail));
    let s3 = link_next(s2, 0x23).0;
    let s4 = link_next(s3, high).0;
    assert(tail.drop_first() =~= seq![high, low] + rest);
    assert(tail.drop_first().drop_first() =~= seq![low] + rest);
    assert(link_next(s4, low).0 =~= st);
    let r4 = feed(s4, tail.drop_first().drop_first());
    assert(feed(s3, tail.drop_first()) == (r4.0, Seq::<u8>::empty() + r4.1, r4.2));
    assert(Seq::<u8>::empty() + r4.1 =~= r4.1);
    assert(feed(s2, tail) == (r4.0, Seq::<u8>::empty() + r4.1, r4.2));
    assert(feed(st, all) == (r4.0, Seq::<u8>::empty() + r4.1, r4.2));
}

/// A packet that is acknowledged and answered: the exchange ends with the answer.
pub proof fn lemma_answered_exchange(st: LinkState, answer: Seq<char>)
    requires
        st.phase is Ack,
        !answer.contains('#'),
        st.skip_console ==> !is_console_output(answer),
    ensures
        feed(st, seq![0x2bu8] + encode_utf8(packet_of(answer))).1 == seq![0x2bu8],
        feed(st, seq![0x2bu8] + encode_utf8(packet_of(answer))).2 == LinkOutcome::Packet(answer),
{
    let packet = encode_utf8(packet_of(answer));
    let all = seq![0x2bu8] + packet;
    let next = link_next(st, 0x2b).0;
    assert(all.drop_first() =~= packet + Seq::<u8>::empty());
    lemma_reads_what_is_sent(next, answer, Seq::empty());
    assert(Seq::<u8>::empty() + seq![0x2bu8] =~= seq![0x2bu8]);
}

/// A packet refused for the third time ends the exchange, whatever it was.
pub proof fn lemma_three_refusals(payload: Seq<char>)
    ensures
        ({
            let packet = encode_utf8(packet_of(payload));
            let start = LinkState {
                packet,
                phase: LinkPhase::Ack(1),
                reader: seeking(),
                skip_console: true,
            };
            let end = feed(start, seq![0x2du8, 0x2du8, 0x2du8]);
            &&& end.1 == packet + packet
            &&& end.2 == LinkOutcome::Failed(seq!["remote target rejected packet three times"@])
        }),
{
    let packet = encode_utf8(packet_of(payload));
    let start = LinkState {
        packet,
        phase: LinkPhase::Ack(1),
        reader: seeking(),
        skip_console: true,
    };
    let minus = seq![0x2du8, 0x2du8, 0x2du8];
    reveal_with_fuel(feed, 4);
    assert(minus.drop_first() =~= seq![0x2du8, 0x2du8]);
    assert(minus.drop_first().drop_first() =~= seq![0x2du8]);
    let end = feed(start, minus);
    assert(end.1 =~= packet + packet);
}

/// The sum of the bytes of two parts is the sum of theirs.
proof fn lemma_sum_adds(a: Seq<u8>, b: Seq<u8>)
    ensures
        byte_sum(a + b) == byte_sum(a) + byte_sum(b),
    decreases b.len(),
{
    if b.len() == 0 {
        assert(a + b =~= a);
    } else {
        lemma_sum_adds(a, b.drop_last());
        assert((a + b).drop_last() =~= a + b.drop_last());
        assert((a + b).last() == b.last());
    }
}

/// The checksum of bytes is their sum without what does not fit into a byte: that of one byte is the
/// byte, and that of two parts is the sum of theirs.
pub proof fn lemma_checksum_adds(a: Seq<u8>, b: Seq<u8>, byte: u8)
    ensures
        checksum_of(Seq::empty()) == 0,
        checksum_of(seq![byte]) == byte,
        checksum_of(a + b) == (checksum_of(a) + checksum_of(b)) % 256,
{
    lemma_sum_adds(a, b);
    let one = seq![byte];
    assert(one.drop_last() =~= Seq::<u8>::empty());
    assert(byte_sum(one.drop_last()) == 0);
    assert(byte_sum(one) == byte);
    let (x, y) = (byte_sum(a) as int, byte_sum(b) as int);
    assert((x + y) % 256 == (x % 256 + y % 256) % 256);
}

} // verus!
