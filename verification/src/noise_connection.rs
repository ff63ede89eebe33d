//! Noise-encrypted connections: the two roles of a handshake, its steps, and how the
//! bytes of a stream become frames.
//!
//! Sockets are the caller's: everything here takes bytes and gives bytes.
use crate::bytes;
use crate::keys;
use crate::messages;
use crate::stratum_sv2::IncomingFrame;
use vstd::prelude::*;

verus! {

/// Bytes of the initiator's handshake message: one encoded key.
pub const RESPONDER_EXPECTED_SIZE: usize = 64;

/// Bytes of the responder's handshake message: its encoded key, its encrypted
/// static key and its encrypted certificate.
pub const INITIATOR_EXPECTED_SIZE: usize = 234;

/// How long the initiator's first message may take, in seconds.
pub const HANDSHAKE_TIMEOUT_SECS: u64 = 10;

// ── Reading frames ────────────────────────────────────────────────────────────

/// What has arrived of the bytes that the decoder asked for.
pub struct ReadBuffer {
    pub expected: usize,
    pub received: Vec<u8>,
}

/// What to do next.
#[derive(Debug, Clone)]
pub enum ReadNext {
    /// Read from the stream, this many bytes at most.
    Read { at_most: usize },
    /// Hand these bytes to the decoder.
    Decode { data: Vec<u8> },
}

/// The stream ended.
#[derive(Debug, Clone, Copy, PartialEq, Eq, Structural)]
pub struct ConnectionClosed;

impl ReadBuffer {
    /// There is never more than was asked for.
    pub open spec fn well_formed(&self) -> bool {
        self.received@.len() <= self.expected
    }

    /// Nothing asked for, nothing there.
    pub fn new() -> (buffer: Self)
        ensures
            buffer.well_formed(),
            buffer.expected == 0,
            buffer.received@ == Seq::<u8>::empty(),
    {
        Self { expected: 0, received: Vec::new() }
    }

    /// The decoder asks for `expected` bytes. What has arrived counts only if it
    /// asked for as many before; once all are there they are handed over.
    pub fn want(&mut self, expected: usize) -> (next: ReadNext)
        requires
            old(self).well_formed(),
        ensures
            final(self).well_formed(),
            final(self).expected == expected,
            ({
                let kept = if old(self).expected == expected {
                    old(self).received@
                } else {
                    Seq::<u8>::empty()
                };
                match next {
                    ReadNext::Read { at_most } => {
                        &&& kept.len() < expected
                        &&& at_most == expected - kept.len()
                        &&& final(self).received@ == kept
                    },
                    ReadNext::Decode { data } => {
                        &&& kept.len() == expected
                        &&& data@ == kept
                        &&& final(self).received@ == Seq::<u8>::empty()
                    },
                }
            }),
    {
        if self.expected != expected {
            self.expected = expected;
            self.received = Vec::new();
        }
        if self.received.len() < expected {
            ReadNext::Read { at_most: expected - self.received.len() }
        } else {
            let data: Vec<u8> = vstd::slice::slice_to_vec(self.received.as_slice());
            self.received = Vec::new();
            ReadNext::Decode { data }
        }
    }

    /// Bytes arrived; none at all means that the stream ended.
    pub fn receive(&mut self, chunk: &[u8]) -> (out: Result<(), ConnectionClosed>)
        requires
            old(self).well_formed(),
            chunk@.len() <= old(self).expected - old(self).received@.len(),
        ensures
            final(self).well_formed(),
            final(self).expected == old(self).expected,
            final(self).received@ == with_chunk(old(self).received@, chunk@),
            final(self).received@ == old(self).received@ + chunk@,
            out is Err <==> chunk@.len() == 0,
    {
        if chunk.len() == 0 {
            assert(self.received@ + chunk@ =~= self.received@);
            return Err(ConnectionClosed);
        }
        self.received.extend_from_slice(chunk);
        assert(self.received@ =~= old(self).received@ + chunk@);
        Ok(())
    }
}

/// What is there after one more chunk.
pub open spec fn with_chunk(received: Seq<u8>, chunk: Seq<u8>) -> Seq<u8> {
    received + chunk
}

/// What is there after the chunks of a stream.
pub open spec fn gathered(received: Seq<u8>, chunks: Seq<Seq<u8>>) -> Seq<u8>
    decreases chunks.len(),
{
    if chunks.len() == 0 {
        received
    } else {
        with_chunk(gathered(received, chunks.drop_last()), chunks.last())
    }
}

/// How a stream is cut into chunks does not matter: cutting one chunk in two, at
/// any place, gathers the same bytes.
pub proof fn chunking_does_not_matter(
    received: Seq<u8>,
    before: Seq<Seq<u8>>,
    first: Seq<u8>,
    second: Seq<u8>,
    after: Seq<Seq<u8>>,
)
    ensures
        gathered(received, before + seq![first, second] + after) == gathered(
            received,
            before + seq![first + second] + after,
        ),
    decreases after.len(),
{
    let split = before + seq![first, second] + after;
    let whole = before + seq![first + second] + after;
    if after.len() == 0 {
        assert(split.drop_last() =~= before + seq![first]);
        assert((before + seq![first]).drop_last() =~= before);
        assert(whole.drop_last() =~= before);
        let start = gathered(received, before);
        assert(gathered(received, before + seq![first]) == start + first);
        assert(start + first + second =~= start + (first + second));
    } else {
        chunking_does_not_matter(received, before, first, second, after.drop_last());
        assert(split.drop_last() =~= before + seq![first, second] + after.drop_last());
        assert(whole.drop_last() =~= before + seq![first + second] + after.drop_last());
    }
}

// ── Roles ─────────────────────────────────────────────────────────────────────

/// The responder side of a Noise handshake.
#[verifier::external_type_specification]
#[verifier::external_body]
pub struct ExResponder(noise_sv2::Responder);

/// The initiator side of a Noise handshake.
#[verifier::external_type_specification]
#[verifier::external_body]
pub struct ExInitiator(noise_sv2::Initiator);

/// The error of `noise_sv2`.
#[verifier::external_type_specification]
#[verifier::external_body]
pub struct ExNoiseError(noise_sv2::Error);

/// A responder, with the authority key whose possession it proves and the time for
/// which its certificate is good.
pub struct AuthorityResponder {
    responder: Box<noise_sv2::Responder>,
    authority: [u8; 32],
    validity_secs: u64,
}

#[verifier::ext_equal]
pub struct ResponderView {
    pub authority: Seq<u8>,
    pub validity_secs: u64,
}

impl View for AuthorityResponder {
    type V = ResponderView;

    closed spec fn view(&self) -> ResponderView {
        ResponderView { authority: self.authority@, validity_secs: self.validity_secs }
    }
}

/// An initiator, with the authority key that it asks of the responder.
pub struct AuthorityInitiator {
    initiator: Box<noise_sv2::Initiator>,
    authority: [u8; 32],
}

#[verifier::ext_equal]
pub struct InitiatorView {
    pub authority: Seq<u8>,
}

impl View for AuthorityInitiator {
    type V = InitiatorView;

    closed spec fn view(&self) -> InitiatorView {
        InitiatorView { authority: self.authority@ }
    }
}

/// `noise_sv2::Responder::from_authority_kp`: succeeds exactly where the public key
/// is the x-only key of the private one. The responder holds that key pair and the
/// validity, which it counts in 32 bits; the key that it draws at random is left
/// unsaid.
#[verifier::external_body]
pub(crate) fn responder_from_keys(
    public: &[u8; 32],
    private: &[u8; 32],
    validity_secs: u64,
) -> (out: Result<AuthorityResponder, noise_sv2::Error>)
    requires
        validity_secs <= u32::MAX,
    ensures
        match out {
            Ok(r) => keys::xonly_key(private@) == Some(public@) && r@ == (ResponderView {
                authority: public@,
                validity_secs,
            }),
            Err(_) => keys::xonly_key(private@) != Some(public@),
        },
{
    let validity = std::time::Duration::from_secs(validity_secs);
    let responder = noise_sv2::Responder::from_authority_kp(public, private, validity)?;
    Ok(AuthorityResponder { responder, authority: *public, validity_secs })
}

/// `noise_sv2::Initiator::from_raw_k`: whether it succeeds depends on the key alone,
/// and the initiator asks for that key. The key that it draws at random is left
/// unsaid.
#[verifier::external_body]
pub(crate) fn initiator_from_key(authority: [u8; 32]) -> (out: Result<
    AuthorityInitiator,
    noise_sv2::Error,
>)
    ensures
        match out {
            Ok(i) => keys::is_x_coordinate(authority@) && i@ == (InitiatorView {
                authority: authority@,
            }),
            Err(_) => !keys::is_x_coordinate(authority@),
        },
{
    let initiator = noise_sv2::Initiator::from_raw_k(authority)?;
    Ok(AuthorityInitiator { initiator, authority })
}

// ── Codec ─────────────────────────────────────────────────────────────────────

/// Which side of the handshake this is.
#[derive(Debug, Clone, Copy, PartialEq, Eq, Structural)]
pub enum Role {
    /// The pool towards its miners.
    Responder,
    /// The pool towards its template provider.
    Initiator,
}

/// What the decoder made of the bytes.
#[derive(Debug, Clone)]
pub enum Decoded {
    HandShake { payload: Vec<u8> },
    Sv2 { msg_type: u8, channel_msg: bool, payload: Vec<u8> },
    /// The decoder needs more.
    MissingBytes { count: usize },
    Failed,
}

#[verifier::ext_equal]
pub enum DecodedView {
    HandShake { payload: Seq<u8> },
    Sv2 { msg_type: u8, channel_msg: bool, payload: Seq<u8> },
    MissingBytes { count: nat },
    Failed,
}

impl View for Decoded {
    type V = DecodedView;

    open spec fn view(&self) -> DecodedView {
        match *self {
            Decoded::HandShake { payload } => DecodedView::HandShake { payload: payload@ },
            Decoded::Sv2 { msg_type, channel_msg, payload } => DecodedView::Sv2 {
                msg_type,
                channel_msg,
                payload: payload@,
            },
            Decoded::MissingBytes { count } => DecodedView::MissingBytes { count: count as nat },
            Decoded::Failed => DecodedView::Failed,
        }
    }
}

/// The error of `codec_sv2`.
#[verifier::external_type_specification]
#[verifier::external_body]
pub struct ExCodecError(codec_sv2::Error);

/// The state of a Noise session.
#[verifier::external_type_specification]
#[verifier::external_body]
pub struct ExCodecState(codec_sv2::State);

/// The reading side of a session: `codec_sv2`'s decoder and the state it decodes by.
#[verifier::external_body]
pub struct NoiseReader {
    decoder: codec_sv2::StandardNoiseDecoder<u32>,
    state: codec_sv2::State,
}

/// The writing side of a session: `codec_sv2`'s encoder and the state it encodes by.
#[verifier::external_body]
pub struct NoiseWriter {
    encoder: codec_sv2::NoiseEncoder<u32>,
    state: codec_sv2::State,
}

/// One direction of a session: its key, and how many pieces were encrypted with it.
#[verifier::ext_equal]
pub struct CipherView {
    pub key: Seq<u8>,
    pub pieces: nat,
}

/// Both directions of a session, as one side sees them.
#[verifier::ext_equal]
pub struct SessionView {
    pub sends: CipherView,
    pub receives: CipherView,
}

/// What a reader holds and asks for.
#[verifier::ext_equal]
pub struct ReaderView {
    /// In a handshake the size of the peer's message; nothing once frames are
    /// encrypted.
    pub waits_for: Option<nat>,
    /// The bytes of the peer's message that were taken in.
    pub holds: Seq<u8>,
    /// How many bytes it takes next.
    pub takes: nat,
    /// By what the frame is decrypted that is read now, once frames are encrypted.
    pub cipher: CipherView,
    /// The header of the frame that is read now, once it was decrypted.
    pub header: Option<Seq<u8>>,
    /// No decoding has failed.
    pub sound: bool,
}

/// What a writer is for.
#[verifier::ext_equal]
pub struct WriterView {
    /// The side in a handshake; nothing once frames are encrypted.
    pub role: Option<Role>,
    /// The authority key that the handshake proves or asks for.
    pub authority: Seq<u8>,
    /// For how long a responder's certificate is good.
    pub validity_secs: u64,
    /// How often the initiator's key was made.
    pub keys_made: nat,
    /// No reply was made or heard yet.
    pub fresh: bool,
    /// By what the next frame is encrypted, once frames are.
    pub cipher: CipherView,
    /// No encoding has failed.
    pub sound: bool,
}

/// What a reader holds.
pub uninterp spec fn reader_state(reader: NoiseReader) -> ReaderView;

/// What the bytes of an encrypted frame decrypt to: its header, or, once that is known,
/// its payload; nothing where they are not authentic.
pub uninterp spec fn opened(cipher: CipherView, header: Option<Seq<u8>>, data: Seq<u8>) -> Option<Seq<u8>>;

/// What a writer is for.
pub uninterp spec fn writer_state(writer: NoiseWriter) -> WriterView;

/// What a frame is encrypted to; nothing where that fails.
pub uninterp spec fn sealed(cipher: CipherView, frame: Seq<u8>) -> Option<Seq<u8>>;

/// The session of a state of encrypted frames; nothing for another state.
pub uninterp spec fn session(state: codec_sv2::State) -> Option<SessionView>;

/// The key that an initiator opens its handshakes with.
pub uninterp spec fn first_key(writer: NoiseWriter) -> Seq<u8>;

/// Whether a responder may answer a key, at a time, with a reply that makes a session.
pub uninterp spec fn may_reply(writer: NoiseWriter, key: Seq<u8>, now: u32, reply: Seq<u8>, made: SessionView) -> bool;

/// The session that an initiator makes of a reply at a time; nothing where it refuses
/// the reply.
pub uninterp spec fn agreed(writer: NoiseWriter, reply: Seq<u8>, now: u32) -> Option<SessionView>;

impl View for NoiseReader {
    type V = ReaderView;

    open spec fn view(&self) -> ReaderView {
        reader_state(*self)
    }
}

impl View for NoiseWriter {
    type V = WriterView;

    open spec fn view(&self) -> WriterView {
        writer_state(*self)
    }
}

/// Bytes that authenticate an encrypted piece.
pub const MAC_SIZE: usize = 16;

/// The most that is encrypted in one piece.
pub const PIECE_SIZE: usize = 65_519;

/// Bytes of a frame header.
pub const HEADER_SIZE: usize = 6;

/// Bytes of an encrypted frame header.
pub const SEALED_HEADER_SIZE: usize = 22;

/// How many pieces a payload is encrypted in.
pub open spec fn pieces_of(payload_len: nat) -> nat {
    ((payload_len + PIECE_SIZE - 1) / (PIECE_SIZE as int)) as nat
}

/// The size of an encrypted payload: its pieces, each with its authentication.
pub open spec fn sealed_payload_len(payload_len: nat) -> nat {
    payload_len + MAC_SIZE as nat * pieces_of(payload_len)
}

/// The size of an encrypted frame: the header and the payload.
pub open spec fn sealed_len(frame_len: nat) -> nat {
    SEALED_HEADER_SIZE as nat + sealed_payload_len((frame_len - HEADER_SIZE) as nat)
}

/// A direction of a session after one more frame: the header is a piece of its own.
pub open spec fn advanced(cipher: CipherView, payload_len: nat) -> CipherView {
    CipherView { pieces: cipher.pieces + 1 + pieces_of(payload_len), ..cipher }
}

/// The size of the payload that a header announces.
pub open spec fn announced(header: Seq<u8>) -> nat {
    bytes::le_value(header.subrange(3, 6))
}

/// Whether a frame's header announces its payload.
pub open spec fn is_frame(frame: Seq<u8>) -> bool {
    frame.len() >= HEADER_SIZE && announced(frame) == frame.len() - HEADER_SIZE
}

/// The message of a frame.
pub open spec fn message_of(header: Seq<u8>, payload: Seq<u8>) -> DecodedView {
    DecodedView::Sv2 { msg_type: header[2], channel_msg: header[1] >= 0x80, payload }
}

/// Whether an encrypted frame decrypts to the frame: first its header, then, with that
/// known, its payload.
pub open spec fn opens_to(cipher: CipherView, frame: Seq<u8>, data: Seq<u8>) -> bool {
    let header = frame.take(HEADER_SIZE as int);
    &&& opened(cipher, None, data.take(SEALED_HEADER_SIZE as int)) == Some(header)
    &&& opened(cipher, Some(header), data.skip(SEALED_HEADER_SIZE as int)) == Some(
        frame.skip(HEADER_SIZE as int),
    )
}

/// `codec_sv2::StandardNoiseDecoder::new`, with the state of a side that waits for a
/// handshake message of this size.
#[verifier::external_body]
fn waiting_reader(size: usize) -> (reader: NoiseReader)
    ensures
        reader_state(reader).waits_for == Some(size as nat),
        reader_state(reader).holds == Seq::<u8>::empty(),
        reader_state(reader).takes == 0,
        reader_state(reader).header is None,
        reader_state(reader).sound,
{
    let state = codec_sv2::State::NotInitialized(size);
    NoiseReader { decoder: codec_sv2::StandardNoiseDecoder::new(), state }
}

/// `codec_sv2`'s `writable_len`: how many bytes the decoder takes next.
#[verifier::external_body]
fn writable_len(reader: &NoiseReader) -> (takes: usize)
    ensures
        takes == reader_state(*reader).takes,
{
    reader.decoder.writable_len()
}

/// `codec_sv2`'s `writable` and `next_frame`: takes in the bytes asked for, and
/// decodes. In a handshake the message is complete when it has its size, and is
/// exactly the bytes taken in; before, the number missing comes back and is asked for
/// next. Of encrypted frames first the header is decrypted, and the size of the payload
/// that it announces is asked for, then the payload, which gives the message. What they
/// decrypt to is named. After a failure nothing is said of the reader.
#[verifier::external_body]
fn next_frame(reader: &mut NoiseReader, data: &[u8]) -> (out: Decoded)
    requires
        reader_state(*old(reader)).sound,
        data@.len() == reader_state(*old(reader)).takes,
        reader_state(*old(reader)).waits_for matches Some(size) ==> reader_state(
            *old(reader),
        ).holds.len() + data@.len() <= size,
    ensures
        match reader_state(*old(reader)).waits_for {
            Some(size) => handshake_decoding(
                reader_state(*old(reader)),
                size,
                data@,
                out@,
                reader_state(*final(reader)),
            ),
            None => transport_decoding(
                reader_state(*old(reader)),
                data@.len(),
                opened(
                    reader_state(*old(reader)).cipher,
                    reader_state(*old(reader)).header,
                    data@,
                ),
                out@,
                reader_state(*final(reader)),
            ),
        },
{
    reader.decoder.writable().copy_from_slice(data);
    match reader.decoder.next_frame(&mut reader.state) {
        Ok(framing_sv2::framing::Frame::HandShake(f)) => Decoded::HandShake { payload: f.get_payload_when_handshaking() },
        Ok(framing_sv2::framing::Frame::Sv2(mut f)) => {
            let header = f.get_header().expect("a frame has a header");
            Decoded::Sv2 { msg_type: header.msg_type(), channel_msg: header.channel_msg(), payload: f.payload().to_vec() }
        },
        Err(codec_sv2::Error::MissingBytes(count)) => Decoded::MissingBytes { count },
        Err(_) => Decoded::Failed,
    }
}

/// What decoding does in a handshake.
pub open spec fn handshake_decoding(
    before: ReaderView,
    size: nat,
    data: Seq<u8>,
    out: DecodedView,
    after: ReaderView,
) -> bool {
    let got = before.holds + data;
    if got.len() == size {
        &&& out == (DecodedView::HandShake { payload: got })
        &&& after == (ReaderView { holds: Seq::empty(), takes: 2, ..before })
    } else {
        let count = (size - got.len()) as nat;
        &&& out == (DecodedView::MissingBytes { count })
        &&& after == (ReaderView { holds: got, takes: count, ..before })
    }
}

/// What decoding does to encrypted frames, where the bytes decrypt to `plain`.
pub open spec fn transport_decoding(
    before: ReaderView,
    len: nat,
    plain: Option<Seq<u8>>,
    out: DecodedView,
    after: ReaderView,
) -> bool {
    if before.header is None && len < SEALED_HEADER_SIZE {
        let count = (SEALED_HEADER_SIZE - len) as nat;
        &&& out == (DecodedView::MissingBytes { count })
        &&& after == (ReaderView { takes: count, ..before })
    } else {
        match (before.header, plain) {
            (_, None) => {
                &&& out == DecodedView::Failed
                &&& after.waits_for is None
            },
            (None, Some(header)) => {
                let count = sealed_payload_len(announced(header));
                &&& header.len() == HEADER_SIZE
                &&& out == (DecodedView::MissingBytes { count })
                &&& after == (ReaderView { takes: count, header: Some(header), ..before })
            },
            (Some(header), Some(payload)) => {
                &&& out == message_of(header, payload)
                &&& after == (ReaderView {
                    takes: SEALED_HEADER_SIZE as nat,
                    header: None,
                    cipher: advanced(before.cipher, announced(header)),
                    ..before
                })
            },
        }
    }
}

/// `codec_sv2::State::initialized` of a responder, and `NoiseEncoder::new`.
#[verifier::external_body]
fn responder_writer(responder: AuthorityResponder) -> (writer: NoiseWriter)
    ensures
        writer_state(writer).role == Some(Role::Responder),
        writer_state(writer).authority == responder@.authority,
        writer_state(writer).validity_secs == responder@.validity_secs,
        writer_state(writer).keys_made == 0,
        writer_state(writer).fresh,
        writer_state(writer).sound,
{
    let role = codec_sv2::HandshakeRole::Responder(responder.responder);
    NoiseWriter { encoder: codec_sv2::NoiseEncoder::new(), state: codec_sv2::State::initialized(role) }
}

/// `codec_sv2::State::initialized` of an initiator, and `NoiseEncoder::new`.
#[verifier::external_body]
fn initiator_writer(initiator: AuthorityInitiator) -> (writer: NoiseWriter)
    ensures
        writer_state(writer).role == Some(Role::Initiator),
        writer_state(writer).authority == initiator@.authority,
        writer_state(writer).validity_secs == 0,
        writer_state(writer).keys_made == 0,
        writer_state(writer).fresh,
        writer_state(writer).sound,
{
    let role = codec_sv2::HandshakeRole::Initiator(initiator.initiator);
    NoiseWriter { encoder: codec_sv2::NoiseEncoder::new(), state: codec_sv2::State::initialized(role) }
}

/// `codec_sv2::State::step_0`: the initiator's key, of 64 bytes. It was drawn when the
/// initiator was made, so every call gives the same. An initiator always has one, no
/// other side does.
#[verifier::external_body]
fn step_0(writer: &mut NoiseWriter) -> (out: Result<Vec<u8>, codec_sv2::Error>)
    ensures
        first_key(*final(writer)) == first_key(*old(writer)),
        writer_state(*final(writer)) == with_key_made(writer_state(*old(writer)), out is Ok),
        out is Ok <==> writer_state(*old(writer)).role == Some(Role::Initiator),
        out matches Ok(key) ==> key@ == first_key(*old(writer)) && key@.len()
            == RESPONDER_EXPECTED_SIZE,
{
    let frame = writer.state.step_0()?;
    Ok(frame.get_payload_when_handshaking())
}

/// A writer after its key was made, or not.
pub open spec fn with_key_made(writer: WriterView, made: bool) -> WriterView {
    if made {
        WriterView { keys_made: writer.keys_made + 1, ..writer }
    } else {
        writer
    }
}

/// `codec_sv2::State::step_1_with_now_rng`: the responder's reply to the initiator's
/// key, of 234 bytes, and the state of encrypted frames. The signature in the reply is
/// drawn at random, so the reply is one that may come. A responder has a reply to any
/// key, and to one only, as it would then ask for an encrypted key; no other side has one. An initiator whose key it was makes the same
/// session of the reply, and takes it where it asks for the responder's authority and
/// the certificate is good.
#[verifier::external_body]
fn step_1(writer: &mut NoiseWriter, key: [u8; 64], now: u32) -> (out: Result<
    (Vec<u8>, codec_sv2::State),
    codec_sv2::Error,
>)
    ensures
        writer_state(*final(writer)) == (WriterView { fresh: false, ..writer_state(*old(writer)) }),
        out is Ok <==> can_reply(writer_state(*old(writer))),
        out matches Ok((reply, transport)) ==> reply@.len() == INITIATOR_EXPECTED_SIZE && session(
            transport,
        ) is Some,
        out matches Ok((reply, transport)) ==> may_reply(
            *old(writer),
            key@,
            now,
            reply@,
            session(transport)->0,
        ),
        out matches Ok((reply, transport)) ==> suits_initiators(
            writer_state(*old(writer)),
            key@,
            now,
            reply@,
            session(transport)->0,
        ),
{
    let mut rng = secp256k1::rand::thread_rng();
    let (frame, transport) = writer.state.step_1_with_now_rng(key, now, &mut rng)?;
    Ok((frame.get_payload_when_handshaking(), transport))
}

/// Whether a writer has a reply to the initiator's key: a responder that made none.
pub open spec fn can_reply(writer: WriterView) -> bool {
    writer.role == Some(Role::Responder) && writer.fresh
}

/// The seconds by which two clocks may differ.
pub const CLOCK_LEEWAY_SECS: u32 = 10;

/// Whether a certificate made at a time is good at another.
pub open spec fn certificate_is_good(made: u32, validity_secs: u64, then: u32) -> bool {
    made - CLOCK_LEEWAY_SECS <= then <= made + validity_secs + CLOCK_LEEWAY_SECS
}

/// The same session, seen from the other side.
pub open spec fn other_side(made: SessionView) -> SessionView {
    SessionView { sends: made.receives, receives: made.sends }
}

/// What a responder's reply to a key means to an initiator whose key it is, and that has
/// heard no reply yet: where it takes the reply, it has the responder's session, seen
/// from the other side; and where it asks for the responder's authority and its key was
/// made once, it takes the reply exactly while the certificate is good.
pub open spec fn suits_initiators(
    responder: WriterView,
    key: Seq<u8>,
    now: u32,
    reply: Seq<u8>,
    made: SessionView,
) -> bool {
    forall|peer: NoiseWriter, then: u32|
        {
            let asks = writer_state(peer);
            asks.role == Some(Role::Initiator) && asks.fresh && first_key(peer) == key ==> {
                &&& agreed(peer, reply, then) is Some ==> agreed(peer, reply, then)->0
                    == other_side(made)
                &&& asks.authority == responder.authority && asks.keys_made == 1 ==> (#[trigger] agreed(
                    peer,
                    reply,
                    then,
                ) is Some <==> certificate_is_good(now, responder.validity_secs, then))
            }
        }
}

/// `codec_sv2::State::step_2_with_now`: the state of encrypted frames, where the
/// responder's reply holds a certificate of the authority that is good at the time. What
/// comes of a reply follows from the initiator's keys, the reply and the time, and is
/// named. A side that is no initiator gets none.
#[verifier::external_body]
fn step_2(writer: &mut NoiseWriter, reply: [u8; 234], now: u32) -> (out: Result<
    codec_sv2::State,
    codec_sv2::Error,
>)
    ensures
        writer_state(*final(writer)) == (WriterView { fresh: false, ..writer_state(*old(writer)) }),
        out is Ok ==> writer_state(*old(writer)).role == Some(Role::Initiator),
        match out {
            Ok(transport) => agreed(*old(writer), reply@, now) is Some && session(transport)
                == agreed(*old(writer), reply@, now),
            Err(_) => agreed(*old(writer), reply@, now) is None,
        },
{
    writer.state.step_2_with_now(reply, now)
}

/// `codec_sv2`'s `encode` of a handshake message: its bytes as they are.
#[verifier::external_body]
fn encode_handshake(writer: &mut NoiseWriter, message: &Vec<u8>) -> (out: Result<
    Vec<u8>,
    codec_sv2::Error,
>)
    requires
        writer_state(*old(writer)).sound,
        writer_state(*old(writer)).role is Some,
    ensures
        writer_state(*final(writer)) == writer_state(*old(writer)),
        first_key(*final(writer)) == first_key(*old(writer)),
        out is Ok,
        out->Ok_0@ == message@,
{
    let frame = framing_sv2::framing::HandShakeFrame::from_bytes_unchecked(message.clone());
    writer.encoder.encode(framing_sv2::framing::Frame::HandShake(frame), &mut writer.state)
}

/// A writer after it encrypted a frame.
pub open spec fn after_sealing(writer: WriterView, frame: Seq<u8>) -> WriterView {
    WriterView {
        cipher: advanced(writer.cipher, (frame.len() - HEADER_SIZE) as nat),
        ..writer
    }
}

/// `codec_sv2`'s `encode` of a frame: the frame encrypted piece by piece. What comes
/// out is named, has its size, and decrypts to the frame. After a failure nothing is said
/// of the writer.
#[verifier::external_body]
fn encode_frame(writer: &mut NoiseWriter, frame: &Vec<u8>) -> (out: Result<
    Vec<u8>,
    codec_sv2::Error,
>)
    requires
        writer_state(*old(writer)).sound,
        writer_state(*old(writer)).role is None,
        frame@.len() >= HEADER_SIZE,
    ensures
        match out {
            Ok(data) => sealed(writer_state(*old(writer)).cipher, frame@) == Some(data@)
                && data@.len() == sealed_len(frame@.len()) && writer_state(*final(writer))
                == after_sealing(writer_state(*old(writer)), frame@),
            Err(_) => sealed(writer_state(*old(writer)).cipher, frame@) is None,
        },
        out matches Ok(data) ==> is_frame(frame@) ==> opens_to(
            writer_state(*old(writer)).cipher,
            frame@,
            data@,
        ),
{
    let frame = framing_sv2::framing::Sv2Frame::from_bytes_unchecked(frame.clone());
    writer.encoder.encode(framing_sv2::framing::Frame::Sv2(frame), &mut writer.state)
}

/// The session goes over to encrypted frames: a fresh `codec_sv2` decoder with the
/// state, which the writer goes on with as well.
#[verifier::external_body]
fn start_transport(writer: &mut NoiseWriter, transport: codec_sv2::State) -> (reader: NoiseReader)
    requires
        session(transport) is Some,
        writer_state(*old(writer)).sound,
    ensures
        goes_over(
            writer_state(*old(writer)),
            writer_state(*final(writer)),
            reader_state(reader),
            session(transport)->0,
        ),
{
    writer.state = transport.clone();
    NoiseReader { decoder: codec_sv2::StandardNoiseDecoder::new(), state: transport }
}

// ── Encrypted frames ──────────────────────────────────────────────────────────

/// What to do next to get a frame.
pub enum FrameNext {
    /// Read from the stream, this many bytes at most.
    Read { at_most: usize },
    Deliver { frame: IncomingFrame },
    /// Go on: the decoder asks for more.
    ReadMore,
    /// The connection is broken.
    Fail,
}

/// Whether a step is what a decoding calls for: any frame is delivered; a decoder that
/// needs more gets more; any other error ends the connection.
pub open spec fn follows(decoded: DecodedView, next: FrameNext) -> bool {
    match decoded {
        DecodedView::HandShake { .. } => next matches FrameNext::Deliver { frame } && frame
            == IncomingFrame::HandShake,
        DecodedView::Sv2 { msg_type, channel_msg, payload } => next matches FrameNext::Deliver {
            frame,
        } && frame matches IncomingFrame::Sv2 { msg_type: t, channel_msg: c, payload: p } && t
            == msg_type && c == channel_msg && p@ == payload,
        DecodedView::MissingBytes { .. } => next is ReadMore,
        DecodedView::Failed => next is Fail,
    }
}

/// The bytes that count towards what a reader asks for.
pub open spec fn kept(buffer: ReadBuffer, takes: nat) -> Seq<u8> {
    if buffer.expected == takes {
        buffer.received@
    } else {
        Seq::empty()
    }
}

/// What a reader of encrypted frames makes of the bytes that it asked for, and how it
/// goes on.
pub open spec fn decoding(reader: ReaderView, data: Seq<u8>) -> (DecodedView, ReaderView) {
    if reader.header is None && data.len() < SEALED_HEADER_SIZE {
        let count = (SEALED_HEADER_SIZE - data.len()) as nat;
        (DecodedView::MissingBytes { count }, ReaderView { takes: count, ..reader })
    } else {
        match (reader.header, opened(reader.cipher, reader.header, data)) {
            (_, None) => (DecodedView::Failed, reader),
            (None, Some(header)) => {
                let count = sealed_payload_len(announced(header));
                (
                    DecodedView::MissingBytes { count },
                    ReaderView { takes: count, header: Some(header), ..reader },
                )
            },
            (Some(header), Some(payload)) => (
                message_of(header, payload),
                ReaderView {
                    takes: SEALED_HEADER_SIZE as nat,
                    header: None,
                    cipher: advanced(reader.cipher, announced(header)),
                    ..reader
                },
            ),
        }
    }
}

/// Goes on reading: asks for what the decoder still needs, and once it is there hands
/// it over, all of it and nothing else, and acts on what comes out.
pub fn read_on(reader: &mut NoiseReader, buffer: &mut ReadBuffer) -> (next: FrameNext)
    requires
        old(reader)@.sound,
        old(reader)@.waits_for is None,
        old(buffer).well_formed(),
    ensures
        final(buffer).well_formed(),
        final(buffer).expected == old(reader)@.takes,
        final(reader)@.waits_for is None,
        ({
            let data = kept(*old(buffer), old(reader)@.takes);
            if data.len() < old(reader)@.takes {
                &&& next == (FrameNext::Read {
                    at_most: (old(reader)@.takes - data.len()) as usize,
                })
                &&& *final(reader) == *old(reader)
                &&& final(buffer).received@ == data
            } else {
                let (decoded, after) = decoding(old(reader)@, data);
                &&& follows(decoded, next)
                &&& !(decoded is Failed) ==> final(reader)@ == after
                &&& final(buffer).received@ == Seq::<u8>::empty()
            }
        }),
{
    match buffer.want(writable_len(reader)) {
        ReadNext::Read { at_most } => FrameNext::Read { at_most },
        ReadNext::Decode { data } => match next_frame(reader, data.as_slice()) {
            Decoded::HandShake { payload: _ } => FrameNext::Deliver {
                frame: IncomingFrame::HandShake,
            },
            Decoded::Sv2 { msg_type, channel_msg, payload } => FrameNext::Deliver {
                frame: IncomingFrame::Sv2 { msg_type, channel_msg, payload },
            },
            Decoded::MissingBytes { count: _ } => FrameNext::ReadMore,
            Decoded::Failed => FrameNext::Fail,
        },
    }
}

/// What a decoding leads to: a message is delivered with its type, its channel bit and its
/// payload; more is read where more is missing; and a failure ends the connection. What has
/// arrived counts only towards what was asked for.
pub proof fn decodings_are_delivered(decoded: DecodedView, next: FrameNext, buffer: ReadBuffer, takes: nat)
    requires
        follows(decoded, next),
    ensures
        decoded matches DecodedView::Sv2 { msg_type, channel_msg, payload } ==> (next matches
            FrameNext::Deliver { frame } && (frame matches IncomingFrame::Sv2 {
            msg_type: t,
            channel_msg: c,
            payload: p,
        } && t == msg_type && c == channel_msg && p@ == payload)),
        decoded is HandShake ==> (next matches FrameNext::Deliver { frame } && frame is HandShake),
        decoded is MissingBytes <==> next is ReadMore,
        decoded is Failed <==> next is Fail,
        buffer.expected == takes ==> kept(buffer, takes) == buffer.received@,
        buffer.expected != takes ==> kept(buffer, takes).len() == 0,
{
}

/// Decoded frames are seen as they are.
pub proof fn decodings_are_seen_as_they_are(decoded: Decoded)
    ensures
        match decoded {
            Decoded::HandShake { payload } => decoded@ == (DecodedView::HandShake {
                payload: payload@,
            }),
            Decoded::Sv2 { msg_type, channel_msg, payload } => decoded@ == (DecodedView::Sv2 {
                msg_type,
                channel_msg,
                payload: payload@,
            }),
            Decoded::MissingBytes { count } => decoded@ == (DecodedView::MissingBytes {
                count: count as nat,
            }),
            Decoded::Failed => decoded@ is Failed,
        },
{
}

/// A frame could not be encrypted.
#[derive(Debug, Clone, Copy, PartialEq, Eq, Structural)]
pub struct EncodeFailed;

/// Whether a frame was encrypted to these bytes: they have its size, and decrypt to it.
pub open spec fn is_sent(cipher: CipherView, frame: Seq<u8>, data: Seq<u8>) -> bool {
    &&& data.len() == sealed_len(frame.len())
    &&& is_frame(frame) ==> opens_to(cipher, frame, data)
}

/// Encrypts a serialized frame.
pub fn seal(writer: &mut NoiseWriter, frame: &Vec<u8>) -> (out: Result<Vec<u8>, EncodeFailed>)
    requires
        old(writer)@.sound,
        old(writer)@.role is None,
        frame@.len() >= HEADER_SIZE,
    ensures
        match out {
            Ok(data) => {
                &&& sealed(old(writer)@.cipher, frame@) == Some(data@)
                &&& is_sent(old(writer)@.cipher, frame@, data@)
                &&& final(writer)@ == after_sealing(old(writer)@, frame@)
            },
            Err(_) => sealed(old(writer)@.cipher, frame@) is None,
        },
{
    match encode_frame(writer, frame) {
        Ok(data) => Ok(data),
        Err(_) => Err(EncodeFailed),
    }
}

// ── What arrives ──────────────────────────────────────────────────────────────

/// What a reader makes of a stream: the messages that it delivers, one after the other,
/// and a failure at the end where there is one. It takes what it asks for, as long as
/// that is there.
pub open spec fn read_all(reader: ReaderView, stream: Seq<u8>) -> Seq<DecodedView>
    decreases
            stream.len(),
            (if reader.takes == 0 {
                1int
            } else {
                0int
            }),
{
    if stream.len() < reader.takes {
        Seq::empty()
    } else {
        let (decoded, after) = decoding(reader, stream.take(reader.takes as int));
        let rest = stream.skip(reader.takes as int);
        match decoded {
            DecodedView::MissingBytes { .. } => read_all(after, rest),
            DecodedView::Failed => seq![decoded],
            _ => seq![decoded] + read_all(after, rest),
        }
    }
}

/// Whether a reader is between two frames of a direction of a session.
pub open spec fn is_between_frames(reader: ReaderView, cipher: CipherView) -> bool {
    &&& reader.cipher == cipher
    &&& reader.header is None
    &&& reader.takes == 0 || reader.takes == SEALED_HEADER_SIZE
}

/// A reader after a frame.
pub open spec fn after_frame(reader: ReaderView, frame: Seq<u8>) -> ReaderView {
    ReaderView {
        takes: SEALED_HEADER_SIZE as nat,
        cipher: advanced(reader.cipher, (frame.len() - HEADER_SIZE) as nat),
        ..reader
    }
}

proof fn lemma_frame_arrives(reader: ReaderView, frame: Seq<u8>, data: Seq<u8>, rest: Seq<u8>)
    requires
        is_between_frames(reader, reader.cipher),
        is_frame(frame),
        is_sent(reader.cipher, frame, data),
    ensures
        read_all(reader, data + rest) == seq![message_of(frame, frame.skip(HEADER_SIZE as int))]
            + read_all(after_frame(reader, frame), rest),
    decreases
            (if reader.takes == 0 {
                1int
            } else {
                0int
            }),
{
    let stream = data + rest;
    let header = frame.take(HEADER_SIZE as int);
    let payload = frame.skip(HEADER_SIZE as int);
    assert(header.subrange(3, 6) =~= frame.subrange(3, 6));
    if reader.takes == 0 {
        let ready = ReaderView { takes: SEALED_HEADER_SIZE as nat, ..reader };
        assert(stream.take(0).len() == 0);
        assert(decoding(reader, stream.take(0)).1 == ready);
        assert(stream.skip(0) =~= stream);
        assert(read_all(reader, stream) == read_all(ready, stream));
        lemma_frame_arrives(ready, frame, data, rest);
        assert(after_frame(ready, frame) == after_frame(reader, frame));
    } else {
        let size = sealed_payload_len(payload.len());
        let first = stream.take(SEALED_HEADER_SIZE as int);
        let second = stream.skip(SEALED_HEADER_SIZE as int);
        assert(first =~= data.take(SEALED_HEADER_SIZE as int));
        let middle = ReaderView { takes: size, header: Some(header), ..reader };
        assert(decoding(reader, first).1 == middle);
        assert(read_all(reader, stream) == read_all(middle, second));
        assert(second.take(size as int) =~= data.skip(SEALED_HEADER_SIZE as int));
        assert(second.skip(size as int) =~= rest);
        let after = after_frame(reader, frame);
        assert(decoding(middle, second.take(size as int)).1 == after);
        assert(message_of(header, payload) == message_of(frame, payload));
    }
}

/// A message as it is sent: its type, its channel bit and its payload.
#[verifier::ext_equal]
pub struct MessageView {
    pub msg_type: u8,
    pub channel_msg: bool,
    pub payload: Seq<u8>,
}

/// The frame of a message.
pub open spec fn frame_of(m: MessageView) -> Seq<u8> {
    messages::frame(m.msg_type, m.channel_msg, m.payload)
}

/// A message as it is delivered.
pub open spec fn delivered(m: MessageView) -> DecodedView {
    DecodedView::Sv2 { msg_type: m.msg_type, channel_msg: m.channel_msg, payload: m.payload }
}

/// Whether the messages were encrypted to these bytes, one after the other, each from
/// where the one before it left the cipher.
pub open spec fn were_sent(
    cipher: CipherView,
    sent: Seq<MessageView>,
    data: Seq<Seq<u8>>,
) -> bool
    decreases sent.len(),
{
    if sent.len() == 0 || data.len() == 0 {
        sent.len() == 0 && data.len() == 0
    } else {
        &&& sent[0].payload.len() < 0x100_0000
        &&& is_sent(cipher, frame_of(sent[0]), data[0])
        &&& were_sent(
            advanced(cipher, sent[0].payload.len()),
            sent.drop_first(),
            data.drop_first(),
        )
    }
}

/// A direction of a session after the messages.
pub open spec fn cipher_after(cipher: CipherView, sent: Seq<MessageView>) -> CipherView
    decreases sent.len(),
{
    if sent.len() == 0 {
        cipher
    } else {
        cipher_after(advanced(cipher, sent[0].payload.len()), sent.drop_first())
    }
}

proof fn lemma_frame_of(m: MessageView)
    requires
        m.payload.len() < 0x100_0000,
    ensures
        is_frame(frame_of(m)),
        frame_of(m).len() == m.payload.len() + HEADER_SIZE,
        message_of(frame_of(m), frame_of(m).skip(HEADER_SIZE as int)) == delivered(m),
{
    let extension: nat = if m.channel_msg {
        0x8000
    } else {
        0
    };
    let frame = frame_of(m);
    bytes::lemma_le_len(extension, 2);
    bytes::lemma_le_len(m.payload.len(), 3);
    reveal_with_fuel(bytes::le, 3);
    reveal_with_fuel(vstd::arithmetic::power::pow, 4);
    bytes::lemma_le_round_trip(m.payload.len(), 3);
    assert(frame.subrange(3, 6) =~= bytes::le(m.payload.len(), 3));
    assert(frame.skip(HEADER_SIZE as int) =~= m.payload);
    assert(frame[1] == bytes::le(extension, 2)[1]);
}

/// What one side encrypts, the other side delivers: a reader in step with the writer
/// makes of its bytes, followed by any others, exactly the messages that were sent, in
/// their order, and goes on with the others from there. Nothing is lost, repeated or
/// changed.
pub proof fn messages_arrive_in_order(
    reader: ReaderView,
    sent: Seq<MessageView>,
    data: Seq<Seq<u8>>,
    rest: Seq<u8>,
) -> (after: ReaderView)
    requires
        is_between_frames(reader, reader.cipher),
        were_sent(reader.cipher, sent, data),
    ensures
        read_all(reader, messages::joined(data) + rest) == sent.map_values(
            |m: MessageView| delivered(m),
        ) + read_all(after, rest),
        is_between_frames(after, cipher_after(reader.cipher, sent)),
        rest.len() == 0 ==> read_all(reader, messages::joined(data)) == sent.map_values(
            |m: MessageView| delivered(m),
        ),
    decreases sent.len(),
{
    let out = sent.map_values(|m: MessageView| delivered(m));
    let after = if sent.len() == 0 {
        assert(messages::joined(data) + rest =~= rest);
        assert(out + read_all(reader, rest) =~= read_all(reader, rest));
        reader
    } else {
        let m = sent[0];
        let later = messages::joined(data.drop_first());
        let next = after_frame(reader, frame_of(m));
        lemma_frame_of(m);
        assert(messages::joined(data) + rest =~= data[0] + (later + rest));
        lemma_frame_arrives(reader, frame_of(m), data[0], later + rest);
        let after = messages_arrive_in_order(next, sent.drop_first(), data.drop_first(), rest);
        let tail = sent.drop_first().map_values(|m: MessageView| delivered(m));
        assert(out =~= seq![delivered(m)] + tail);
        assert(seq![delivered(m)] + (tail + read_all(after, rest)) =~= out + read_all(after, rest));
        after
    };
    if rest.len() == 0 {
        assert(messages::joined(data) + rest =~= messages::joined(data));
        lemma_nothing_more(after);
        assert(rest =~= Seq::empty());
        assert(out + Seq::<DecodedView>::empty() =~= out);
    }
    after
}

proof fn lemma_nothing_more(reader: ReaderView)
    requires
        is_between_frames(reader, reader.cipher),
    ensures
        read_all(reader, Seq::empty()) == Seq::<DecodedView>::empty(),
{
    if reader.takes == 0 {
        let stream = Seq::<u8>::empty();
        let ready = ReaderView { takes: SEALED_HEADER_SIZE as nat, ..reader };
        assert(decoding(reader, stream.take(0)).1 == ready);
        assert(stream.skip(0) =~= stream);
        assert(read_all(ready, stream) == Seq::<DecodedView>::empty());
    }
}

/// Once a responder has replied to an initiator's key, and the initiator has taken the
/// reply, each side reads by what the other writes: what either sends, the other delivers.
pub proof fn both_sides_are_in_step(
    responder: WriterView,
    initiator: NoiseWriter,
    key: Seq<u8>,
    now: u32,
    reply: Seq<u8>,
    made: SessionView,
    then: u32,
)
    requires
        suits_initiators(responder, key, now, reply, made),
        initiator@.role == Some(Role::Initiator),
        initiator@.fresh,
        first_key(initiator) == key,
        agreed(initiator, reply, then) is Some,
    ensures
        agreed(initiator, reply, then)->0.sends == made.receives,
        agreed(initiator, reply, then)->0.receives == made.sends,
{
}

/// An initiator that asks for the responder's authority, and opened the handshake with
/// its key, takes the reply to it exactly while the certificate is good.
pub proof fn the_right_authority_is_taken(
    responder: WriterView,
    initiator: NoiseWriter,
    key: Seq<u8>,
    now: u32,
    reply: Seq<u8>,
    made: SessionView,
    then: u32,
)
    requires
        suits_initiators(responder, key, now, reply, made),
        initiator@.role == Some(Role::Initiator),
        initiator@.fresh,
        initiator@.keys_made == 1,
        first_key(initiator) == key,
        initiator@.authority == responder.authority,
    ensures
        agreed(initiator, reply, then) is Some <==> certificate_is_good(
            now,
            responder.validity_secs,
            then,
        ),
{
}

// ── Handshake ─────────────────────────────────────────────────────────────────

/// How far a handshake is.
#[derive(Debug, Clone, Copy, PartialEq, Eq, Structural)]
pub enum Phase {
    Idle,
    /// The initiator's key is on its way.
    SendingKey,
    /// Waiting for the peer's handshake message.
    Listening,
    /// The peer's message is complete and being answered or checked.
    Answering,
    /// Both sides have the session's keys.
    Established,
    Failed,
}

/// Why a handshake fails.
#[derive(Debug, Clone, Copy, PartialEq, Eq, Structural)]
pub enum HandshakeError {
    TimedOut,
    ReadFailed,
    WriteFailed,
    /// A frame of the encrypted connection came too early.
    UnexpectedFrame,
    DecodeFailed,
    WrongPayloadSize,
    /// The Noise protocol refused the peer's message, or made none.
    NoiseFailed,
}

/// What happened in a handshake.
#[derive(Debug, Clone)]
pub enum HandshakeEvent {
    Begin,
    /// The initiator's key was sent.
    KeySent,
    /// The decoder tells how many bytes it takes before it can decode.
    Asked { expected: usize },
    Decoded { decoded: Decoded },
    /// The responder's reply was sent, or the initiator agreed to the reply.
    Answered,
    /// The stream or the Noise protocol failed.
    Broken { error: HandshakeError },
}

/// What to do next in a handshake.
#[derive(Debug, Clone)]
pub enum HandshakeNext {
    /// Make the initiator's key and send it.
    SendKey,
    /// Ask the decoder how many bytes it takes.
    Ask,
    /// Read this many bytes, hand them to the decoder, and decode.
    ReadExactly { count: usize },
    Decode,
    /// Make the responder's reply to the peer's key and send it.
    Reply { payload: Vec<u8> },
    /// Complete the initiator's side with the peer's reply.
    Finish { payload: Vec<u8> },
    /// Go over to encrypted frames.
    Transport,
    Fail { error: HandshakeError },
}

/// A handshake under way.
pub struct Handshake {
    pub role: Role,
    pub phase: Phase,
}

/// The size of the peer's handshake message.
pub open spec fn expected_size(role: Role) -> usize {
    match role {
        Role::Responder => RESPONDER_EXPECTED_SIZE,
        Role::Initiator => INITIATOR_EXPECTED_SIZE,
    }
}

/// Whether an event can happen in a phase.
pub open spec fn can_happen(phase: Phase, event: HandshakeEvent) -> bool {
    match event {
        HandshakeEvent::Begin => phase == Phase::Idle,
        HandshakeEvent::KeySent => phase == Phase::SendingKey,
        HandshakeEvent::Asked { .. } => phase == Phase::Listening,
        HandshakeEvent::Decoded { .. } => phase == Phase::Listening,
        HandshakeEvent::Answered => phase == Phase::Answering,
        HandshakeEvent::Broken { .. } => phase != Phase::Established && phase != Phase::Failed,
    }
}

/// What a decoding does to a handshake.
pub open spec fn after_message(role: Role, decoded: Decoded) -> (Phase, HandshakeNext) {
    match decoded {
        Decoded::HandShake { payload } => if payload@.len() != expected_size(role) {
            (Phase::Failed, HandshakeNext::Fail { error: HandshakeError::WrongPayloadSize })
        } else if role == Role::Responder {
            (Phase::Answering, HandshakeNext::Reply { payload })
        } else {
            (Phase::Answering, HandshakeNext::Finish { payload })
        },
        Decoded::Sv2 { .. } => (
            Phase::Failed,
            HandshakeNext::Fail { error: HandshakeError::UnexpectedFrame },
        ),
        Decoded::MissingBytes { .. } => (Phase::Listening, HandshakeNext::Ask),
        Decoded::Failed => (
            Phase::Failed,
            HandshakeNext::Fail { error: HandshakeError::DecodeFailed },
        ),
    }
}

/// The phase after an event, and what to do then.
pub open spec fn handshake_step(role: Role, phase: Phase, event: HandshakeEvent) -> (
    Phase,
    HandshakeNext,
) {
    match event {
        HandshakeEvent::Begin => if role == Role::Initiator {
            (Phase::SendingKey, HandshakeNext::SendKey)
        } else {
            (Phase::Listening, HandshakeNext::Ask)
        },
        HandshakeEvent::KeySent => (Phase::Listening, HandshakeNext::Ask),
        HandshakeEvent::Asked { expected } => if expected > 0 {
            (phase, HandshakeNext::ReadExactly { count: expected })
        } else {
            (phase, HandshakeNext::Decode)
        },
        HandshakeEvent::Decoded { decoded } => after_message(role, decoded),
        HandshakeEvent::Answered => (Phase::Established, HandshakeNext::Transport),
        HandshakeEvent::Broken { error } => (Phase::Failed, HandshakeNext::Fail { error }),
    }
}

impl Handshake {
    /// A handshake that has not begun.
    pub fn new(role: Role) -> (handshake: Self)
        ensures
            handshake.role == role,
            handshake.phase == Phase::Idle,
    {
        Self { role, phase: Phase::Idle }
    }

    /// Decides the next step.
    pub fn step(&mut self, event: HandshakeEvent) -> (next: HandshakeNext)
        requires
            can_happen(old(self).phase, event),
        ensures
            final(self).role == old(self).role,
            (final(self).phase, next) == handshake_step(old(self).role, old(self).phase, event),
    {
        match event {
            HandshakeEvent::Begin => match self.role {
                Role::Initiator => {
                    self.phase = Phase::SendingKey;
                    HandshakeNext::SendKey
                },
                Role::Responder => {
                    self.phase = Phase::Listening;
                    HandshakeNext::Ask
                },
            },
            HandshakeEvent::KeySent => {
                self.phase = Phase::Listening;
                HandshakeNext::Ask
            },
            HandshakeEvent::Asked { expected } => if expected > 0 {
                HandshakeNext::ReadExactly { count: expected }
            } else {
                HandshakeNext::Decode
            },
            HandshakeEvent::Decoded { decoded } => self.take_message(decoded),
            HandshakeEvent::Answered => {
                self.phase = Phase::Established;
                HandshakeNext::Transport
            },
            HandshakeEvent::Broken { error } => {
                self.phase = Phase::Failed;
                HandshakeNext::Fail { error }
            },
        }
    }

    fn take_message(&mut self, decoded: Decoded) -> (next: HandshakeNext)
        requires
            old(self).phase == Phase::Listening,
        ensures
            final(self).role == old(self).role,
            (final(self).phase, next) == after_message(old(self).role, decoded),
    {
        match decoded {
            Decoded::HandShake { payload } => {
                let size: usize = match self.role {
                    Role::Responder => RESPONDER_EXPECTED_SIZE,
                    Role::Initiator => INITIATOR_EXPECTED_SIZE,
                };
                if payload.len() != size {
                    self.phase = Phase::Failed;
                    return HandshakeNext::Fail { error: HandshakeError::WrongPayloadSize };
                }
                self.phase = Phase::Answering;
                match self.role {
                    Role::Responder => HandshakeNext::Reply { payload },
                    Role::Initiator => HandshakeNext::Finish { payload },
                }
            },
            Decoded::Sv2 { msg_type: _, channel_msg: _, payload: _ } => {
                self.phase = Phase::Failed;
                HandshakeNext::Fail { error: HandshakeError::UnexpectedFrame }
            },
            Decoded::MissingBytes { count: _ } => HandshakeNext::Ask,
            Decoded::Failed => {
                self.phase = Phase::Failed;
                HandshakeNext::Fail { error: HandshakeError::DecodeFailed }
            },
        }
    }
}

/// The writing side of a session that is to be opened as the responder.
pub fn responding(responder: AuthorityResponder) -> (writer: NoiseWriter)
    ensures
        writer@.role == Some(Role::Responder),
        writer@.authority == responder@.authority,
        writer@.validity_secs == responder@.validity_secs,
        writer@.keys_made == 0,
        writer@.fresh,
        writer@.sound,
{
    responder_writer(responder)
}

/// The writing side of a session that is to be opened as the initiator.
pub fn initiating(initiator: AuthorityInitiator) -> (writer: NoiseWriter)
    ensures
        writer@.role == Some(Role::Initiator),
        writer@.authority == initiator@.authority,
        writer@.validity_secs == 0,
        writer@.keys_made == 0,
        writer@.fresh,
        writer@.sound,
{
    initiator_writer(initiator)
}

/// A reader that waits for the peer's handshake message.
pub fn listening(role: Role) -> (reader: NoiseReader)
    ensures
        reader@.waits_for == Some(expected_size(role) as nat),
        reader@.holds == Seq::<u8>::empty(),
        reader@.takes == 0,
        reader@.sound,
{
    match role {
        Role::Responder => waiting_reader(RESPONDER_EXPECTED_SIZE),
        Role::Initiator => waiting_reader(INITIATOR_EXPECTED_SIZE),
    }
}

/// Asks the decoder how many bytes it takes.
pub fn ask(reader: &NoiseReader) -> (event: HandshakeEvent)
    ensures
        event matches HandshakeEvent::Asked { expected } && expected == reader@.takes,
{
    HandshakeEvent::Asked { expected: writable_len(reader) }
}

/// Hands the decoder the bytes that it asked for: the peer's message comes out once
/// all of it was taken in, byte for byte.
pub fn hear(reader: &mut NoiseReader, data: &[u8]) -> (event: HandshakeEvent)
    requires
        old(reader)@.sound,
        old(reader)@.waits_for matches Some(size) && old(reader)@.holds.len() + data@.len()
            <= size,
        data@.len() == old(reader)@.takes,
    ensures
        event matches HandshakeEvent::Decoded { decoded } && handshake_decoding(
            old(reader)@,
            old(reader)@.waits_for->0,
            data@,
            decoded@,
            final(reader)@,
        ),
{
    HandshakeEvent::Decoded { decoded: next_frame(reader, data) }
}

/// The initiator's first message: its key.
pub fn send_key(writer: &mut NoiseWriter) -> (out: Result<Vec<u8>, HandshakeError>)
    requires
        old(writer)@.sound,
    ensures
        first_key(*final(writer)) == first_key(*old(writer)),
        final(writer)@ == with_key_made(old(writer)@, out is Ok),
        match out {
            Ok(key) => old(writer)@.role == Some(Role::Initiator) && key@ == first_key(
                *old(writer),
            ) && key@.len() == RESPONDER_EXPECTED_SIZE,
            Err(error) => old(writer)@.role != Some(Role::Initiator) && error
                == HandshakeError::NoiseFailed,
        },
{
    let key: Vec<u8> = match step_0(writer) {
        Ok(key) => key,
        Err(_) => {
            return Err(HandshakeError::NoiseFailed);
        },
    };
    match encode_handshake(writer, &key) {
        Ok(data) => Ok(data),
        Err(_) => Err(HandshakeError::NoiseFailed),
    }
}

fn to_array64(data: &Vec<u8>) -> (out: [u8; 64])
    requires
        data@.len() == 64,
    ensures
        out@ == data@,
{
    let mut out: [u8; 64] = [0u8; 64];
    let mut i: usize = 0;
    while i < 64
        invariant
            i <= 64,
            data@.len() == 64,
            forall|j: int| 0 <= j < i ==> out@[j] == data@[j],
        decreases 64 - i,
    {
        out[i] = data[i];
        i = i + 1;
    }
    assert(out@ =~= data@);
    out
}

fn to_array234(data: &Vec<u8>) -> (out: [u8; 234])
    requires
        data@.len() == 234,
    ensures
        out@ == data@,
{
    let mut out: [u8; 234] = [0u8; 234];
    let mut i: usize = 0;
    while i < 234
        invariant
            i <= 234,
            data@.len() == 234,
            forall|j: int| 0 <= j < i ==> out@[j] == data@[j],
        decreases 234 - i,
    {
        out[i] = data[i];
        i = i + 1;
    }
    assert(out@ =~= data@);
    out
}

/// What stands once a handshake is over: the writer has gone over to encrypted frames,
/// and so has the reader, each with its direction of the session.
pub open spec fn goes_over(
    before: WriterView,
    after: WriterView,
    reader: ReaderView,
    made: SessionView,
) -> bool {
    &&& after == (WriterView { role: None, fresh: false, cipher: made.sends, ..before })
    &&& reader == (ReaderView {
        waits_for: None,
        holds: Seq::empty(),
        takes: 0,
        cipher: made.receives,
        header: None,
        sound: true,
    })
}

/// The session of a side that has gone over to encrypted frames.
pub open spec fn session_of(writer: WriterView, reader: ReaderView) -> SessionView {
    SessionView { sends: writer.cipher, receives: reader.cipher }
}

/// Sends a responder's reply as it is, and goes over to encrypted frames.
pub fn answer(writer: &mut NoiseWriter, reply: &Vec<u8>, transport: codec_sv2::State) -> (out: (
    Vec<u8>,
    NoiseReader,
))
    requires
        old(writer)@.sound,
        old(writer)@.role is Some,
        session(transport) is Some,
    ensures
        out.0@ == reply@,
        goes_over(old(writer)@, final(writer)@, out.1@, session(transport)->0),
{
    let data: Vec<u8> = match encode_handshake(writer, reply) {
        Ok(data) => data,
        Err(_) => {
            assert(false);
            Vec::new()
        },
    };
    let reader: NoiseReader = start_transport(writer, transport);
    (data, reader)
}

/// The responder's reply to the initiator's key, and the reader of the encrypted
/// frames that follow. `now` is the time at which the certificate starts.
pub fn respond(writer: &mut NoiseWriter, key: &Vec<u8>, now: u32) -> (out: Result<
    (Vec<u8>, NoiseReader),
    HandshakeError,
>)
    requires
        old(writer)@.sound,
        old(writer)@.role is Some,
        key@.len() == RESPONDER_EXPECTED_SIZE,
    ensures
        match out {
            Ok((reply, reader)) => {
                let made = session_of(final(writer)@, reader@);
                &&& can_reply(old(writer)@)
                &&& reply@.len() == INITIATOR_EXPECTED_SIZE
                &&& may_reply(*old(writer), key@, now, reply@, made)
                &&& suits_initiators(old(writer)@, key@, now, reply@, made)
                &&& goes_over(old(writer)@, final(writer)@, reader@, made)
            },
            Err(error) => {
                &&& !can_reply(old(writer)@)
                &&& error == HandshakeError::NoiseFailed
                &&& final(writer)@ == (WriterView { fresh: false, ..old(writer)@ })
            },
        },
{
    match step_1(writer, to_array64(key), now) {
        Ok((reply, transport)) => Ok(answer(writer, &reply, transport)),
        Err(_) => Err(HandshakeError::NoiseFailed),
    }
}

/// The initiator's check of the responder's reply, and the reader of the encrypted
/// frames that follow. `now` is the time at which the certificate has to be good.
pub fn finish(writer: &mut NoiseWriter, reply: &Vec<u8>, now: u32) -> (out: Result<
    NoiseReader,
    HandshakeError,
>)
    requires
        old(writer)@.sound,
        reply@.len() == INITIATOR_EXPECTED_SIZE,
    ensures
        match out {
            Ok(reader) => {
                &&& old(writer)@.role == Some(Role::Initiator)
                &&& agreed(*old(writer), reply@, now) == Some(session_of(final(writer)@, reader@))
                &&& goes_over(
                    old(writer)@,
                    final(writer)@,
                    reader@,
                    session_of(final(writer)@, reader@),
                )
            },
            Err(error) => {
                &&& agreed(*old(writer), reply@, now) is None
                &&& error == HandshakeError::NoiseFailed
                &&& final(writer)@ == (WriterView { fresh: false, ..old(writer)@ })
            },
        },
{
    match step_2(writer, to_array234(reply), now) {
        Ok(transport) => Ok(start_transport(writer, transport)),
        Err(_) => Err(HandshakeError::NoiseFailed),
    }
}

/// In which phase an event can happen: what broke can break in any but at the end.
pub proof fn events_come_in_their_phase(phase: Phase, event: HandshakeEvent)
    ensures
        can_happen(phase, event) <==> {
            ||| phase == Phase::Idle && event is Begin
            ||| phase == Phase::SendingKey && event is KeySent
            ||| phase == Phase::Listening && (event is Asked || event is Decoded)
            ||| phase == Phase::Answering && event is Answered
            ||| phase != Phase::Established && phase != Phase::Failed && event is Broken
        },
{
}

/// What calls for each step of a handshake: only the initiator starts with its key, the
/// other side listens; what the decoder asks for is read, all of it; the peer's message is
/// answered by the responder and checked by the initiator, as it came, where it has its 64
/// or 234 bytes; the session starts once that is done; and what broke is reported.
pub proof fn each_step_has_its_reason(role: Role, phase: Phase, event: HandshakeEvent)
    requires
        can_happen(phase, event),
    ensures
        ({
            let (after, next) = handshake_step(role, phase, event);
            let size: nat = if role == Role::Responder {
                64
            } else {
                234
            };
            &&& next is SendKey <==> event is Begin && role == Role::Initiator
            &&& after == Phase::SendingKey <==> next is SendKey
            &&& event is Begin && role == Role::Responder || event is KeySent ==> next is Ask
                && after == Phase::Listening
            &&& event matches HandshakeEvent::Asked { expected } ==> after == phase && next == if expected
                == 0 {
                HandshakeNext::Decode
            } else {
                HandshakeNext::ReadExactly { count: expected }
            }
            &&& next is Transport <==> event is Answered
            &&& after == Phase::Established <==> event is Answered
            &&& event matches HandshakeEvent::Broken { error } ==> after == Phase::Failed && next
                == (HandshakeNext::Fail { error })
            &&& event matches HandshakeEvent::Decoded { decoded } ==> match decoded {
                Decoded::HandShake { payload } => if payload@.len() == size {
                    after == Phase::Answering && next == if role == Role::Responder {
                        HandshakeNext::Reply { payload }
                    } else {
                        HandshakeNext::Finish { payload }
                    }
                } else {
                    after == Phase::Failed && next == (HandshakeNext::Fail {
                        error: HandshakeError::WrongPayloadSize,
                    })
                },
                Decoded::Sv2 { .. } => after == Phase::Failed && next == (HandshakeNext::Fail {
                    error: HandshakeError::UnexpectedFrame,
                }),
                Decoded::MissingBytes { .. } => after == Phase::Listening && next is Ask,
                Decoded::Failed => after == Phase::Failed && next == (HandshakeNext::Fail {
                    error: HandshakeError::DecodeFailed,
                }),
            }
        }),
{
}

/// The phase after a run of events.
pub open spec fn phase_after(role: Role, events: Seq<HandshakeEvent>) -> Phase
    decreases events.len(),
{
    if events.len() == 0 {
        Phase::Idle
    } else {
        handshake_step(role, phase_after(role, events.drop_last()), events.last()).0
    }
}

/// Whether each event of a run can happen when it comes.
pub open spec fn is_run(role: Role, events: Seq<HandshakeEvent>) -> bool
    decreases events.len(),
{
    events.len() == 0 || is_run(role, events.drop_last()) && can_happen(
        phase_after(role, events.drop_last()),
        events.last(),
    )
}

/// Whether an event is the peer's handshake message in full.
pub open spec fn is_full_message(role: Role, event: HandshakeEvent) -> bool {
    event matches HandshakeEvent::Decoded { decoded } && decoded matches Decoded::HandShake {
        payload,
    } && payload@.len() == expected_size(role)
}

/// No connection goes over to encrypted frames, and no reply is made, before the
/// peer's handshake message has come in full.
pub proof fn no_answer_before_the_full_message(role: Role, events: Seq<HandshakeEvent>)
    requires
        is_run(role, events),
        phase_after(role, events) == Phase::Established || phase_after(role, events)
            == Phase::Answering,
    ensures
        exists|i: int| 0 <= i < events.len() && is_full_message(role, #[trigger] events[i]),
    decreases events.len(),
{
    let before = events.drop_last();
    let last = events.last();
    if is_full_message(role, last) {
        assert(is_full_message(role, events[events.len() - 1]));
    } else {
        no_answer_before_the_full_message(role, before);
        let i = choose|i: int| 0 <= i < before.len() && is_full_message(role, #[trigger] before[i]);
        assert(is_full_message(role, events[i]));
    }
}

/// An initiator has sent its key before it listens.
pub proof fn initiator_speaks_first(events: Seq<HandshakeEvent>)
    requires
        is_run(Role::Initiator, events),
        phase_after(Role::Initiator, events) == Phase::Listening,
    ensures
        exists|i: int| 0 <= i < events.len() && #[trigger] events[i] is KeySent,
    decreases events.len(),
{
    let before = events.drop_last();
    let last = events.last();
    if last is KeySent {
        assert(events[events.len() - 1] is KeySent);
    } else {
        initiator_speaks_first(before);
        let i = choose|i: int| 0 <= i < before.len() && #[trigger] before[i] is KeySent;
        assert(events[i] is KeySent);
    }
}

} // verus!
