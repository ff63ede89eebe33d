use pool::db::now_secs;
use pool::keys::generate_keypair;
use pool::messages::framed;
use pool::noise_connection::{
    ask, finish, hear, initiating, listening, read_on, respond, responding, seal, send_key,
    ConnectionClosed, Decoded, FrameNext, Handshake, HandshakeError, HandshakeEvent,
    HandshakeNext, NoiseReader, NoiseWriter, Phase, ReadBuffer, ReadNext, Role,
    INITIATOR_EXPECTED_SIZE, PIECE_SIZE, RESPONDER_EXPECTED_SIZE,
};
use pool::stratum_sv2::{AuthorityKeypair, IncomingFrame, CERT_VALIDITY_SECS};
use pool::template_client::initiator;

#[test]
fn sizes_are_those_of_the_noise_messages() {
    assert_eq!(RESPONDER_EXPECTED_SIZE, noise_sv2::ELLSWIFT_ENCODING_SIZE);
    assert_eq!(INITIATOR_EXPECTED_SIZE, noise_sv2::INITIATOR_EXPECTED_HANDSHAKE_MESSAGE_SIZE);
}

/// Feeds the bytes in chunks of a size and returns what is decoded.
fn read_in_chunks(data: &[u8], size: usize) -> Vec<u8> {
    let mut buffer = ReadBuffer::new();
    let mut at = 0;
    loop {
        match buffer.want(data.len()) {
            ReadNext::Read { at_most } => {
                let end = at + size.min(at_most);
                buffer.receive(&data[at..end]).unwrap();
                at = end;
            }
            ReadNext::Decode { data } => return data,
        }
    }
}

#[test]
fn chunks_of_any_size_give_the_same_bytes() {
    let data: Vec<u8> = (0..100).collect();
    for size in [1, 3, 7, 99, 100, 1000] {
        assert_eq!(read_in_chunks(&data, size), data);
    }
}

#[test]
fn what_arrived_counts_only_for_the_same_request() {
    let mut buffer = ReadBuffer::new();
    assert!(matches!(buffer.want(4), ReadNext::Read { at_most: 4 }));
    buffer.receive(&[1, 2]).unwrap();
    assert!(matches!(buffer.want(4), ReadNext::Read { at_most: 2 }));
    assert!(matches!(buffer.want(3), ReadNext::Read { at_most: 3 }));
    buffer.receive(&[7, 8, 9]).unwrap();
    match buffer.want(3) {
        ReadNext::Decode { data } => assert_eq!(data, vec![7, 8, 9]),
        ReadNext::Read { .. } => panic!("all is there"),
    }
    assert!(matches!(buffer.want(3), ReadNext::Read { at_most: 3 }));
    assert_eq!(buffer.receive(&[]), Err(ConnectionClosed));
    match buffer.want(0) {
        ReadNext::Decode { data } => assert!(data.is_empty()),
        ReadNext::Read { .. } => panic!("nothing is missing"),
    }
}

fn decoded(decoded: Decoded) -> HandshakeEvent {
    HandshakeEvent::Decoded { decoded }
}

#[test]
fn a_responder_replies_to_a_full_key() {
    let mut handshake = Handshake::new(Role::Responder);
    assert!(matches!(handshake.step(HandshakeEvent::Begin), HandshakeNext::Ask));
    assert!(matches!(
        handshake.step(HandshakeEvent::Asked { expected: 0 }),
        HandshakeNext::Decode
    ));
    let missing = decoded(Decoded::MissingBytes { count: 64 });
    assert!(matches!(handshake.step(missing), HandshakeNext::Ask));
    assert!(matches!(
        handshake.step(HandshakeEvent::Asked { expected: 64 }),
        HandshakeNext::ReadExactly { count: 64 }
    ));
    match handshake.step(decoded(Decoded::HandShake { payload: vec![5; 64] })) {
        HandshakeNext::Reply { payload } => assert_eq!(payload, vec![5; 64]),
        _ => panic!("a reply"),
    }
    assert_eq!(handshake.phase, Phase::Answering);
    assert!(matches!(handshake.step(HandshakeEvent::Answered), HandshakeNext::Transport));
    assert_eq!(handshake.phase, Phase::Established);
}

#[test]
fn an_initiator_sends_its_key_first() {
    let mut handshake = Handshake::new(Role::Initiator);
    assert!(matches!(handshake.step(HandshakeEvent::Begin), HandshakeNext::SendKey));
    assert!(matches!(handshake.step(HandshakeEvent::KeySent), HandshakeNext::Ask));
    match handshake.step(decoded(Decoded::HandShake { payload: vec![6; 234] })) {
        HandshakeNext::Finish { payload } => assert_eq!(payload.len(), 234),
        _ => panic!("the end"),
    }
    assert!(matches!(handshake.step(HandshakeEvent::Answered), HandshakeNext::Transport));
}

#[test]
fn handshakes_fail_for_each_reason() {
    let cases = [
        (
            decoded(Decoded::Sv2 { msg_type: 0, channel_msg: false, payload: vec![] }),
            HandshakeError::UnexpectedFrame,
        ),
        (decoded(Decoded::Failed), HandshakeError::DecodeFailed),
        (
            decoded(Decoded::HandShake { payload: vec![0; 63] }),
            HandshakeError::WrongPayloadSize,
        ),
        (
            HandshakeEvent::Broken { error: HandshakeError::TimedOut },
            HandshakeError::TimedOut,
        ),
        (
            HandshakeEvent::Broken { error: HandshakeError::ReadFailed },
            HandshakeError::ReadFailed,
        ),
        (
            HandshakeEvent::Broken { error: HandshakeError::WriteFailed },
            HandshakeError::WriteFailed,
        ),
        (
            HandshakeEvent::Broken { error: HandshakeError::NoiseFailed },
            HandshakeError::NoiseFailed,
        ),
    ];
    for (event, expected) in cases {
        let mut handshake = Handshake::new(Role::Responder);
        handshake.step(HandshakeEvent::Begin);
        match handshake.step(event) {
            HandshakeNext::Fail { error } => assert_eq!(error, expected),
            _ => panic!("a failure"),
        }
        assert_eq!(handshake.phase, Phase::Failed);
    }
}

// ── Both sides of a session ───────────────────────────────────────────────────

struct Side {
    writer: NoiseWriter,
    reader: NoiseReader,
    buffer: ReadBuffer,
}

impl Side {
    fn new(writer: NoiseWriter, reader: NoiseReader) -> Self {
        Side { writer, reader, buffer: ReadBuffer::new() }
    }

    fn seal(&mut self, frame: &[u8]) -> Vec<u8> {
        seal(&mut self.writer, &frame.to_vec()).unwrap()
    }

    /// Takes in the bytes, at most `size` at a time, until a frame or a failure.
    fn open(&mut self, data: &[u8], size: usize) -> Option<IncomingFrame> {
        let mut at = 0;
        loop {
            match read_on(&mut self.reader, &mut self.buffer) {
                FrameNext::Read { at_most } => {
                    let end = at + size.min(at_most);
                    self.buffer.receive(&data[at..end]).unwrap();
                    at = end;
                }
                FrameNext::ReadMore => {}
                FrameNext::Deliver { frame } => {
                    assert_eq!(at, data.len());
                    return Some(frame);
                }
                FrameNext::Fail => return None,
            }
        }
    }
}

impl Side {
    /// Takes in all the bytes, at most `size` at a time, and returns the frames.
    fn open_all(&mut self, data: &[u8], size: usize) -> Vec<IncomingFrame> {
        let mut frames = vec![];
        let mut at = 0;
        loop {
            match read_on(&mut self.reader, &mut self.buffer) {
                FrameNext::Read { at_most } => {
                    if at == data.len() {
                        return frames;
                    }
                    let end = at + size.min(at_most);
                    self.buffer.receive(&data[at..end]).unwrap();
                    at = end;
                }
                FrameNext::ReadMore => {}
                FrameNext::Deliver { frame } => frames.push(frame),
                FrameNext::Fail => panic!("a frame that cannot be opened"),
            }
        }
    }
}

/// Runs the machine up to the peer's whole message.
fn listen(handshake: &mut Handshake, mut next: HandshakeNext, message: &[u8]) -> Vec<u8> {
    let mut reader = listening(handshake.role);
    loop {
        let event = match next {
            HandshakeNext::Ask => ask(&reader),
            HandshakeNext::Decode => hear(&mut reader, &[]),
            HandshakeNext::ReadExactly { count } => {
                assert_eq!(count, message.len());
                hear(&mut reader, message)
            }
            HandshakeNext::Reply { payload } => return payload,
            HandshakeNext::Finish { payload } => return payload,
            other => panic!("unexpected step {other:?}"),
        };
        next = handshake.step(event);
    }
}

/// A handshake, run up to the initiator's check of the reply at `then` seconds from now.
fn shake_hands(asked: [u8; 32], keypair: &AuthorityKeypair, then: u32) -> Option<(Side, Side)> {
    let now = now_secs() as u32;
    let mut client = initiating(initiator(asked).unwrap());
    let mut server = responding(keypair.to_responder().unwrap());

    let mut calling = Handshake::new(Role::Initiator);
    assert!(matches!(calling.step(HandshakeEvent::Begin), HandshakeNext::SendKey));
    let key = send_key(&mut client).unwrap();
    assert_eq!(key.len(), RESPONDER_EXPECTED_SIZE);

    let mut answering = Handshake::new(Role::Responder);
    let next = answering.step(HandshakeEvent::Begin);
    let heard = listen(&mut answering, next, &key);
    assert_eq!(heard, key);
    let (reply, server_reader) = respond(&mut server, &heard, now).unwrap();
    assert_eq!(reply.len(), INITIATOR_EXPECTED_SIZE);
    assert!(matches!(answering.step(HandshakeEvent::Answered), HandshakeNext::Transport));

    let next = calling.step(HandshakeEvent::KeySent);
    let heard = listen(&mut calling, next, &reply);
    assert_eq!(heard, reply);
    match finish(&mut client, &heard, now + then) {
        Ok(client_reader) => {
            assert!(matches!(calling.step(HandshakeEvent::Answered), HandshakeNext::Transport));
            Some((Side::new(client, client_reader), Side::new(server, server_reader)))
        }
        Err(error) => {
            assert_eq!(error, HandshakeError::NoiseFailed);
            None
        }
    }
}

fn authority() -> AuthorityKeypair {
    let (public, private) = generate_keypair();
    AuthorityKeypair { public, private }
}

fn assert_opens(frame: Option<IncomingFrame>, expected: (u8, bool, &[u8])) {
    match frame {
        Some(IncomingFrame::Sv2 { msg_type, channel_msg, payload }) => {
            assert_eq!((msg_type, channel_msg, &payload[..]), expected);
        }
        _ => panic!("a frame"),
    }
}

#[test]
fn frames_go_both_ways_after_a_handshake() {
    let keypair = authority();
    let (mut client, mut server) = shake_hands(keypair.public, &keypair, 0).unwrap();
    let cases =
        [(0x00u8, false, 0usize), (0x13, false, 1), (0x1f, true, 300), (0x20, true, PIECE_SIZE + 7)];
    for (msg_type, channel_msg, len) in cases {
        let payload: Vec<u8> = (0..len).map(|i| i as u8).collect();
        let frame = framed(msg_type, channel_msg, &payload);

        let there = client.seal(&frame);
        assert_ne!(there, frame);
        let pieces = len.div_ceil(PIECE_SIZE);
        assert_eq!(there.len(), 22 + len + 16 * pieces);
        assert_opens(server.open(&there, 1000), (msg_type, channel_msg, &payload));

        let back = server.seal(&frame);
        assert_opens(client.open(&back, 7), (msg_type, channel_msg, &payload));
    }
}

#[test]
fn messages_arrive_in_their_order() {
    let keypair = authority();
    let lens = [3, 0, PIECE_SIZE, 2 * PIECE_SIZE + 1, 1];
    for size in [1, 22, 1000, usize::MAX] {
        let (mut client, mut server) = shake_hands(keypair.public, &keypair, 0).unwrap();
        let mut data = vec![];
        for (i, len) in lens.into_iter().enumerate() {
            data.extend(client.seal(&framed(i as u8, i % 2 == 1, &vec![i as u8; len])));
        }
        let frames = server.open_all(&data, size);
        assert_eq!(frames.len(), lens.len());
        for ((i, len), frame) in lens.into_iter().enumerate().zip(frames) {
            assert_opens(Some(frame), (i as u8, i % 2 == 1, &vec![i as u8; len]));
        }
    }
}

#[test]
fn a_frame_that_is_missing_or_comes_twice_is_refused() {
    let keypair = authority();
    let frame = framed(0x13, false, &vec![7; 50]);
    let (mut client, mut server) = shake_hands(keypair.public, &keypair, 0).unwrap();
    let first = client.seal(&frame);
    assert_opens(server.open(&first, 1000), (0x13, false, &[7; 50]));
    assert!(server.open(&first, 1000).is_none());

    let (mut client, mut server) = shake_hands(keypair.public, &keypair, 0).unwrap();
    client.seal(&frame);
    let second = client.seal(&frame);
    assert!(server.open(&second, 1000).is_none());
}

#[test]
fn an_initiator_keeps_its_key() {
    let mut client = initiating(initiator(authority().public).unwrap());
    let mut other = initiating(initiator(authority().public).unwrap());
    let key = send_key(&mut client).unwrap();
    assert_eq!(send_key(&mut client).unwrap(), key);
    assert_ne!(send_key(&mut other).unwrap(), key);
}

#[test]
fn a_changed_byte_breaks_the_connection() {
    let keypair = authority();
    let frame = framed(0x13, false, &vec![7; 50]);
    for at in [0, 30] {
        let (mut client, mut server) = shake_hands(keypair.public, &keypair, 0).unwrap();
        let mut sealed = client.seal(&frame);
        sealed[at] ^= 1;
        assert!(server.open(&sealed, 1000).is_none());
    }
}

#[test]
fn another_authority_is_refused() {
    let (keypair, other) = (authority(), authority());
    assert!(shake_hands(other.public, &keypair, 0).is_none());
}

#[test]
fn a_certificate_expires() {
    let keypair = authority();
    let year = CERT_VALIDITY_SECS as u32;
    assert!(shake_hands(keypair.public, &keypair, year - 1000).is_some());
    assert!(shake_hands(keypair.public, &keypair, year + 1000).is_none());
}

#[test]
fn each_side_has_its_own_steps() {
    let keypair = authority();
    let mut server = responding(keypair.to_responder().unwrap());
    assert_eq!(send_key(&mut server).err(), Some(HandshakeError::NoiseFailed));
    let mut client = initiating(initiator(keypair.public).unwrap());
    let refused = respond(&mut client, &vec![1; 64], 0).err();
    assert_eq!(refused, Some(HandshakeError::NoiseFailed));
}
