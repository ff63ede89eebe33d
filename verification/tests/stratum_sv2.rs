use binary_sv2::{GetSize, Str0255, U256};
use common_messages_sv2::{
    Protocol, SetupConnection, SetupConnectionError, SetupConnectionSuccess,
    MESSAGE_TYPE_SETUP_CONNECTION, MESSAGE_TYPE_SETUP_CONNECTION_ERROR,
    MESSAGE_TYPE_SETUP_CONNECTION_SUCCESS,
};
use framing_sv2::framing::Sv2Frame;
use framing_sv2::header::Header;
use mining_sv2::{
    NewExtendedMiningJob, OpenExtendedMiningChannel, OpenExtendedMiningChannelSuccess,
    SetNewPrevHash, MESSAGE_TYPE_MINING_SET_NEW_PREV_HASH, MESSAGE_TYPE_NEW_EXTENDED_MINING_JOB,
    MESSAGE_TYPE_OPEN_EXTENDED_MINING_CHANNEL, MESSAGE_TYPE_OPEN_EXTENDED_MINING_CHANNEL_SUCCESS,
};
use pool::messages;
use pool::rpc::{BlockTemplate, TemplateTransaction};
use pool::stratum_sv2::{
    build_job_messages, dispatch_message, handle_event, handle_event_checked,
    handle_open_extended_mining_channel, handle_setup_connection, parse_miner_address,
    send_jobs_in_order, send_jobs_to_all_channels, template_target, AuthorityKeypair, ChannelInfo,
    Connection, ConnectionEvent, ConnectionState, IncomingFrame, InvalidKeypair, JobError,
    MessageError, NextStep, OpenError, SetupError, Template,
};

const ADDR: &str = "bc1qar0srrr7xfkvy5l643lydnw9re59gtzzwf5mdq";
const LEGACY: &str = "1A1zP1eP5QGefi2DMPTfTL5SLmv7DivfNa";

/// Build a raw SetupConnection frame (header + payload) as byte vector.
fn make_setup_connection_frame(protocol: Protocol, min_ver: u16, max_ver: u16) -> Vec<u8> {
    let msg = SetupConnection {
        protocol,
        min_version: min_ver,
        max_version: max_ver,
        flags: 0,
        endpoint_host: Str0255::try_from(b"localhost".to_vec()).unwrap(),
        endpoint_port: 3333,
        vendor: Str0255::try_from(b"test-vendor".to_vec()).unwrap(),
        hardware_version: Str0255::try_from(b"1.0".to_vec()).unwrap(),
        firmware: Str0255::try_from(b"1.0".to_vec()).unwrap(),
        device_id: Str0255::try_from(b"test-device".to_vec()).unwrap(),
    };
    serialize_sv2(msg, MESSAGE_TYPE_SETUP_CONNECTION)
}

fn serialize_sv2<T: binary_sv2::Serialize + GetSize>(msg: T, msg_type: u8) -> Vec<u8> {
    let mut dst = vec![0u8; Header::SIZE + msg.get_size()];
    Sv2Frame::<_, Vec<u8>>::from_message(msg, msg_type, 0, false)
        .expect("valid frame")
        .serialize(&mut dst)
        .expect("serialize ok");
    dst
}

fn incoming(raw: &[u8]) -> IncomingFrame {
    let frame = Sv2Frame::<u32, Vec<u8>>::from_bytes_unchecked(raw.to_vec());
    let msg_type = frame.get_header().expect("header present").msg_type();
    IncomingFrame::Sv2 { msg_type, channel_msg: false, payload: raw[Header::SIZE..].to_vec() }
}

/// Checks the header of a frame and returns its payload.
fn payload_of(frame: &[u8], msg_type: u8, channel_msg: bool) -> Vec<u8> {
    let header = Header::from_bytes(frame).expect("a header");
    assert_eq!(header.msg_type(), msg_type);
    assert_eq!(header.channel_msg(), channel_msg);
    assert_eq!(header.ext_type_without_channel_msg(), 0);
    assert_eq!(Sv2Frame::<u32, Vec<u8>>::size_hint(frame), 0);
    frame[Header::SIZE..].to_vec()
}

fn open_request(identity: &[u8]) -> Vec<u8> {
    let max_target = U256::try_from([0xff_u8; 32].to_vec()).expect("max_target");
    let msg = OpenExtendedMiningChannel {
        request_id: 42,
        user_identity: Str0255::try_from(identity.to_vec()).unwrap(),
        nominal_hash_rate: 1000.0_f32,
        max_target,
        min_extranonce_size: 4,
    };
    serialize_sv2(msg, MESSAGE_TYPE_OPEN_EXTENDED_MINING_CHANNEL)
}

fn template() -> BlockTemplate {
    BlockTemplate {
        template_id: 7,
        version: 0x2000_0000,
        previousblockhash: "000102030405060708090a0b0c0d0e0f101112131415161718191a1b1c1d1e1f"
            .to_string(),
        transactions: vec![TemplateTransaction {
            data: "00".to_string(),
            txid: "ab".to_string() + &"00".repeat(31),
            hash: "ab".to_string() + &"00".repeat(31),
            fee: 0,
            weight: 400,
        }],
        coinbasevalue: 5_000_000_000,
        bits: "207fffff".to_string(),
        height: 101,
        curtime: 1_700_000_000,
        target: "7fffff".to_string() + &"00".repeat(29),
        default_witness_commitment: Some("6a24aa21a9ed".to_string() + &"00".repeat(32)),
        longpollid: "x".to_string(),
    }
}

fn rpc(template: &BlockTemplate) -> Template {
    Template::Rpc { template: template.clone() }
}

fn frame_event(frame: IncomingFrame) -> ConnectionEvent {
    ConnectionEvent::Frame { frame, channel_target: None }
}

// ── SetupConnection ───────────────────────────────────────────────────────────

#[test]
fn parse_setup_connection_mining_v2() {
    let raw = make_setup_connection_frame(Protocol::MiningProtocol, 2, 2);
    let msg_type = match incoming(&raw) {
        IncomingFrame::Sv2 { msg_type, .. } => msg_type,
        IncomingFrame::HandShake => panic!("expected Sv2 frame"),
    };
    assert_eq!(msg_type, MESSAGE_TYPE_SETUP_CONNECTION);
}

#[test]
fn parse_setup_connection_payload() {
    let raw = make_setup_connection_frame(Protocol::MiningProtocol, 2, 2);
    let payload = raw[Header::SIZE..].to_vec();
    let msg = messages::read_setup_connection(&payload).expect("deserialize SetupConnection");

    assert_eq!(msg.protocol, messages::Protocol::Mining);
    assert_eq!(msg.min_version, 2);
    assert_eq!(msg.max_version, 2);
    assert_eq!(msg.endpoint_host, b"localhost");
    assert_eq!(msg.endpoint_port, 3333);
    assert_eq!(msg.vendor, b"test-vendor");
    assert_eq!(msg.hardware_version, b"1.0");
    assert_eq!(msg.firmware, b"1.0");
    assert_eq!(msg.device_id, b"test-device");
}

#[test]
fn setup_connection_success_serializes() {
    let raw = make_setup_connection_frame(Protocol::MiningProtocol, 2, 2);
    let answer = handle_setup_connection(&incoming(&raw));
    assert_eq!(answer.outcome, Ok(()));
    let frame = answer.reply.expect("an answer");
    let bytes = payload_of(&frame, MESSAGE_TYPE_SETUP_CONNECTION_SUCCESS, false);
    assert_eq!(bytes.len(), 6);
    assert_eq!(u16::from_le_bytes([bytes[0], bytes[1]]), 2);
    assert_eq!(u32::from_le_bytes([bytes[2], bytes[3], bytes[4], bytes[5]]), 0x02);
    assert_eq!(frame, vec![0, 0, 1, 6, 0, 0, 2, 0, 2, 0, 0, 0]);
}

fn refusal(frame: &IncomingFrame, error: SetupError) -> String {
    let answer = handle_setup_connection(frame);
    assert_eq!(answer.outcome, Err(error));
    let reply = answer.reply.expect("a refusal is answered");
    let mut payload = payload_of(&reply, MESSAGE_TYPE_SETUP_CONNECTION_ERROR, false);
    let msg: SetupConnectionError = binary_sv2::from_bytes(&mut payload).unwrap();
    assert_eq!(msg.flags, 0);
    msg.error_code.as_utf8_or_hex()
}

#[test]
fn refused_connections_learn_why() {
    let raw = make_setup_connection_frame(Protocol::TemplateDistributionProtocol, 2, 2);
    assert_eq!(
        refusal(
            &incoming(&raw),
            SetupError::UnsupportedProtocol { protocol: messages::Protocol::TemplateDistribution }
        ),
        "unsupported-protocol"
    );
    let raw = make_setup_connection_frame(Protocol::JobDeclarationProtocol, 3, 1);
    assert_eq!(
        refusal(
            &incoming(&raw),
            SetupError::UnsupportedProtocol { protocol: messages::Protocol::JobDeclaration }
        ),
        "unsupported-protocol"
    );
    for (min_version, max_version) in [(3u16, 4u16), (0, 1), (3, 1)] {
        let raw = make_setup_connection_frame(Protocol::MiningProtocol, min_version, max_version);
        assert_eq!(
            refusal(&incoming(&raw), SetupError::VersionMismatch { min_version, max_version }),
            "protocol-version-mismatch"
        );
    }
    let other = IncomingFrame::Sv2 { msg_type: 0x13, channel_msg: false, payload: vec![] };
    assert_eq!(
        refusal(&other, SetupError::UnexpectedMessage { msg_type: 0x13 }),
        "unsupported-message"
    );
}

#[test]
fn unreadable_first_frames_are_not_answered() {
    let answer = handle_setup_connection(&IncomingFrame::HandShake);
    assert_eq!(answer.outcome, Err(SetupError::UnexpectedHandshake));
    assert!(answer.reply.is_none());

    let raw = make_setup_connection_frame(Protocol::MiningProtocol, 2, 2);
    for cut in Header::SIZE..raw.len() {
        let payload = raw[Header::SIZE..cut].to_vec();
        let frame = IncomingFrame::Sv2 { msg_type: 0, channel_msg: false, payload };
        let answer = handle_setup_connection(&frame);
        assert_eq!(answer.outcome, Err(SetupError::Malformed));
        assert!(answer.reply.is_none());
    }
    let mut payload = raw[Header::SIZE..].to_vec();
    payload[0] = 3;
    let answer = handle_setup_connection(&IncomingFrame::Sv2 { msg_type: 0, channel_msg: false, payload });
    assert_eq!(answer.outcome, Err(SetupError::Malformed));
}

#[test]
fn versions_one_to_three_and_trailing_bytes_are_accepted() {
    let raw = make_setup_connection_frame(Protocol::MiningProtocol, 1, 3);
    let mut payload = raw[Header::SIZE..].to_vec();
    payload.extend_from_slice(&[9, 9, 9]);
    let answer = handle_setup_connection(&IncomingFrame::Sv2 { msg_type: 0, channel_msg: false, payload });
    assert_eq!(answer.outcome, Ok(()));
    let reply = answer.reply.unwrap();
    let mut payload = payload_of(&reply, MESSAGE_TYPE_SETUP_CONNECTION_SUCCESS, false);
    let msg: SetupConnectionSuccess = binary_sv2::from_bytes(&mut payload).unwrap();
    assert_eq!((msg.used_version, msg.flags), (2, 2));
}

// ── addresses ─────────────────────────────────────────────────────────────────

#[test]
fn parse_miner_address_valid() {
    let pool = "bc1qar0srrr7xfkvy5l643lydnw9re59gtzzwf5mdq";
    let miner = "bc1qar0srrr7xfkvy5l643lydnw9re59gtzzwf5mdq.worker1";
    assert_eq!(parse_miner_address(miner, pool), "bc1qar0srrr7xfkvy5l643lydnw9re59gtzzwf5mdq");
}

#[test]
fn parse_miner_address_fallback() {
    let pool = "bc1qar0srrr7xfkvy5l643lydnw9re59gtzzwf5mdq";
    assert_eq!(parse_miner_address("not-a-valid-address", pool), pool);
}

#[test]
fn parse_miner_address_takes_what_stands_before_the_first_dot() {
    assert_eq!(parse_miner_address(LEGACY, ADDR), LEGACY);
    assert_eq!(parse_miner_address("1A1zP1eP5QGefi2DMPTfTL5SLmv7DivfNa.a.b", ADDR), LEGACY);
    assert_eq!(parse_miner_address(".1A1zP1eP5QGefi2DMPTfTL5SLmv7DivfNa", ADDR), ADDR);
    assert_eq!(parse_miner_address("", ADDR), ADDR);
    assert_eq!(parse_miner_address("ä.ö", ADDR), ADDR);
    assert_eq!(parse_miner_address("x", "no address either"), "no address either");
}

// ── channels ──────────────────────────────────────────────────────────────────

#[test]
fn ids_count_up() {
    let mut state = ConnectionState::new(ADDR.to_string());
    assert_eq!(state.alloc_channel_id(), 0);
    assert_eq!(state.alloc_channel_id(), 1);
    assert_eq!(state.alloc_job_id(), 1);
    assert_eq!(state.alloc_job_id(), 2);
    assert!(state.channels.is_empty());
    assert_eq!(state.pool_address, ADDR);
}

#[test]
fn sv2_server_open_extended_channel() {
    let mut state = ConnectionState::new(ADDR.to_string());
    let frame = incoming(&open_request(b"test-miner"));
    let reply = dispatch_message(&frame, &mut state, &None, &rpc(&template()));
    assert_eq!(reply.outcome, Ok(()));
    assert_eq!(reply.frames.len(), 3);

    let mut payload =
        payload_of(&reply.frames[0], MESSAGE_TYPE_OPEN_EXTENDED_MINING_CHANNEL_SUCCESS, false);
    let ch_success: OpenExtendedMiningChannelSuccess =
        binary_sv2::from_bytes(&mut payload).expect("parse OpenExtendedMiningChannelSuccess");
    assert_eq!(ch_success.request_id, 42, "request_id must match");
    assert_eq!(ch_success.extranonce_size, 4, "extranonce_size must equal min_extranonce_size");
    assert_eq!(ch_success.group_channel_id, 0);
    assert_eq!(ch_success.extranonce_prefix.inner_as_ref(), &[0u8; 32]);
    assert_eq!(ch_success.target.inner_as_ref()[28..], [0, 0xff, 0xff, 0x7f]);
    let channel_id = ch_success.channel_id;
    assert_eq!(channel_id, 0);

    let mut payload = payload_of(&reply.frames[1], MESSAGE_TYPE_NEW_EXTENDED_MINING_JOB, true);
    let job: NewExtendedMiningJob =
        binary_sv2::from_bytes(&mut payload).expect("parse NewExtendedMiningJob");
    assert_eq!(job.channel_id, channel_id, "NewExtendedMiningJob channel_id must match");
    assert!(!job.coinbase_tx_prefix.inner_as_ref().is_empty());
    assert!(!job.coinbase_tx_suffix.inner_as_ref().is_empty());
    assert!(job.version > 0, "version must be positive");
    assert!(job.is_future(), "initial job must be a future job");
    assert!(job.version_rolling_allowed);
    assert_eq!(job.job_id, 1);
    let path = job.merkle_path.inner_as_ref();
    assert_eq!(path.len(), 1);
    assert_eq!(path[0][31], 0xab);

    let mut payload = payload_of(&reply.frames[2], MESSAGE_TYPE_MINING_SET_NEW_PREV_HASH, true);
    let prev_hash: SetNewPrevHash =
        binary_sv2::from_bytes(&mut payload).expect("parse SetNewPrevHash");
    assert_eq!(prev_hash.channel_id, channel_id, "SetNewPrevHash channel_id must match");
    assert!(prev_hash.nbits > 0, "nbits must be positive");
    assert_eq!(prev_hash.job_id, job.job_id, "SetNewPrevHash must reference the sent job");
    assert_eq!(prev_hash.nbits, 0x207f_ffff);
    assert_eq!(prev_hash.min_ntime, 1_700_000_000);
    let expected: Vec<u8> = (0..32u8).rev().collect();
    assert_eq!(prev_hash.prev_hash.inner_as_ref(), &expected[..]);

    let channel = &state.channels[&0];
    assert_eq!(channel.miner_address, ADDR);
    assert_eq!(channel.extranonce1, [0; 4]);
    assert_eq!((state.next_channel_id, state.next_job_id), (1, 2));
}

#[test]
fn channel_coinbase_pays_the_miner_and_carries_its_extranonce() {
    let mut state = ConnectionState::new(ADDR.to_string());
    state.next_channel_id = 0x0102_0304;
    let identity = format!("{LEGACY}.rig");
    let frame = incoming(&open_request(identity.as_bytes()));
    let reply = dispatch_message(&frame, &mut state, &None, &rpc(&template()));
    let mut payload =
        payload_of(&reply.frames[0], MESSAGE_TYPE_OPEN_EXTENDED_MINING_CHANNEL_SUCCESS, false);
    let grant: OpenExtendedMiningChannelSuccess = binary_sv2::from_bytes(&mut payload).unwrap();
    assert_eq!(grant.extranonce_prefix.inner_as_ref()[..5], [4, 3, 2, 1, 0]);
    let mut payload = payload_of(&reply.frames[1], MESSAGE_TYPE_NEW_EXTENDED_MINING_JOB, true);
    let job: NewExtendedMiningJob = binary_sv2::from_bytes(&mut payload).unwrap();
    let mut raw = job.coinbase_tx_prefix.to_vec();
    raw.extend_from_slice(grant.extranonce_prefix.inner_as_ref());
    raw.extend_from_slice(&[9, 8, 7, 6]);
    raw.extend_from_slice(job.coinbase_tx_suffix.inner_as_ref());
    let tx: bitcoin::Transaction = bitcoin::consensus::deserialize(&raw).unwrap();
    assert_eq!(tx.output[0].value.to_sat(), 5_000_000_000);
    assert_eq!(
        hex::encode(tx.output[0].script_pubkey.to_bytes()),
        "76a91462e907b15cbf27d5425399ebf6f0fb50ebb88f1888ac"
    );
    assert!(tx.input[0].script_sig.to_bytes().ends_with(&[0, 0, 9, 8, 7, 6]));
}

#[test]
fn identities_that_are_no_text_fall_back_to_the_pool() {
    let mut state = ConnectionState::new(ADDR.to_string());
    let raw = open_request(&[0xff, 0xfe]);
    let reply = dispatch_message(&incoming(&raw), &mut state, &None, &rpc(&template()));
    assert_eq!(reply.outcome, Ok(()));
    assert_eq!(state.channels[&0].miner_address, ADDR);
}

#[test]
fn malformed_requests_change_nothing() {
    let raw = open_request(b"test-miner");
    for cut in Header::SIZE..raw.len() {
        let mut state = ConnectionState::new(ADDR.to_string());
        let payload = raw[Header::SIZE..cut].to_vec();
        let t = rpc(&template());
        let reply = handle_open_extended_mining_channel(&payload, &mut state, &None, &t);
        assert_eq!(
            reply.outcome,
            Err(MessageError::Open { error: OpenError::Malformed })
        );
        assert!(reply.frames.is_empty());
        assert_eq!((state.next_channel_id, state.next_job_id), (0, 1));
    }
}

#[test]
fn a_template_target_is_held_least_significant_byte_first() {
    let mut t = template();
    t.target = (0u8..32).map(|i| format!("{i:02x}")).collect();
    let mut expected: Vec<u8> = (0..32).collect();
    expected.reverse();
    assert_eq!(template_target(&t).unwrap().to_vec(), expected);
}

#[test]
fn a_bad_target_spends_the_channel_id_only() {
    for (target, error) in
        [("zz".to_string(), OpenError::TargetNotHex), ("00".repeat(31), OpenError::TargetLength)]
    {
        let mut t = template();
        t.target = target;
        assert_eq!(template_target(&t), Err(error));
        let mut state = ConnectionState::new(ADDR.to_string());
        let reply = dispatch_message(&incoming(&open_request(b"m")), &mut state, &None, &rpc(&t));
        assert_eq!(reply.outcome, Err(MessageError::Open { error }));
        assert!(reply.frames.is_empty());
        assert!(state.channels.is_empty());
        assert_eq!((state.next_channel_id, state.next_job_id), (1, 1));
    }
}

#[test]
fn jobs_fail_for_each_reason_after_the_grant() {
    let mut not_hex = template();
    not_hex.previousblockhash = "0".to_string();
    let mut short = template();
    short.previousblockhash = "00".to_string();
    let mut bits = template();
    bits.bits = "-1".to_string();
    let mut large = template();
    large.default_witness_commitment = Some("00".repeat(65536));
    let cases = [
        (not_hex, ADDR, JobError::PrevHashNotHex),
        (short, ADDR, JobError::PrevHashLength),
        (bits, ADDR, JobError::BadBits),
        (template(), "nobody", JobError::InvalidMinerAddress),
        (large, ADDR, JobError::CoinbaseSuffixTooLarge),
    ];
    for (t, pool_address, error) in cases {
        let mut state = ConnectionState::new(pool_address.to_string());
        let reply = dispatch_message(&incoming(&open_request(b"m")), &mut state, &None, &rpc(&t));
        assert_eq!(
            reply.outcome,
            Err(MessageError::Open { error: OpenError::Job { error } })
        );
        assert_eq!(reply.frames.len(), 1);
        assert_eq!(state.channels.len(), 1);
        assert_eq!((state.next_channel_id, state.next_job_id), (1, 2));
    }
}

#[test]
fn other_messages_are_passed_over() {
    let mut state = ConnectionState::new(ADDR.to_string());
    let frame = IncomingFrame::Sv2 { msg_type: 0x1a, channel_msg: false, payload: vec![1, 2] };
    let reply = dispatch_message(&frame, &mut state, &None, &rpc(&template()));
    assert_eq!(reply.outcome, Ok(()));
    assert!(reply.frames.is_empty());
    let reply = dispatch_message(&IncomingFrame::HandShake, &mut state, &None, &rpc(&template()));
    assert_eq!(reply.outcome, Err(MessageError::UnexpectedHandshake));
}

// ── broadcast ─────────────────────────────────────────────────────────────────

fn state_with(addresses: &[&str]) -> ConnectionState {
    let mut state = ConnectionState::new(ADDR.to_string());
    for address in addresses {
        let id = state.alloc_channel_id();
        let channel = ChannelInfo {
            channel_id: id,
            extranonce1: id.to_le_bytes(),
            miner_address: address.to_string(),
            target: [0xff; 32],
        };
        state.channels.insert(id, channel);
    }
    state
}

#[test]
fn a_new_template_reaches_every_channel() {
    let mut state = state_with(&[ADDR, LEGACY, ADDR]);
    let sent = send_jobs_to_all_channels(&mut state, &rpc(&template()));
    assert_eq!(sent.outcome, Ok(()));
    assert_eq!(sent.frames.len(), 6);
    let mut seen = vec![];
    for pair in sent.frames.chunks(2) {
        let mut payload = payload_of(&pair[0], MESSAGE_TYPE_MINING_SET_NEW_PREV_HASH, true);
        let prev: SetNewPrevHash = binary_sv2::from_bytes(&mut payload).unwrap();
        let mut payload = payload_of(&pair[1], MESSAGE_TYPE_NEW_EXTENDED_MINING_JOB, true);
        let job: NewExtendedMiningJob = binary_sv2::from_bytes(&mut payload).unwrap();
        assert_eq!(prev.job_id, job.job_id);
        assert_eq!(prev.channel_id, job.channel_id);
        assert_eq!(job.job_id, (101 << 8) | job.channel_id);
        assert!(!job.is_future());
        assert_eq!(job.min_ntime.clone().into_inner(), Some(1_700_000_000));
        seen.push(job.channel_id);
    }
    seen.sort();
    assert_eq!(seen, vec![0, 1, 2]);
}

#[test]
fn a_broadcast_stops_at_the_first_channel_without_a_job() {
    let mut state = state_with(&[ADDR, "nobody", ADDR]);
    let sent = send_jobs_in_order(&mut state, &vec![2, 1, 0], &rpc(&template()));
    assert_eq!(sent.outcome, Err(JobError::InvalidMinerAddress));
    assert_eq!(sent.frames.len(), 2);
    let sent = send_jobs_in_order(&mut state, &vec![2, 0], &rpc(&template()));
    assert_eq!(sent.outcome, Ok(()));
    assert_eq!(sent.frames.len(), 4);
}

#[test]
fn job_ids_of_a_broadcast_keep_the_low_byte_of_the_channel() {
    let channel = ChannelInfo {
        channel_id: 0x0305,
        extranonce1: [5, 3, 0, 0],
        miner_address: ADDR.to_string(),
        target: [0; 32],
    };
    let mut state = ConnectionState::new(ADDR.to_string());
    state.next_channel_id = 0x0306;
    state.channels.insert(0x0305, channel);
    let mut t = template();
    t.height = 0x0123_4567;
    let sent = send_jobs_to_all_channels(&mut state, &rpc(&t));
    let mut payload = payload_of(&sent.frames[0], MESSAGE_TYPE_MINING_SET_NEW_PREV_HASH, true);
    let prev: SetNewPrevHash = binary_sv2::from_bytes(&mut payload).unwrap();
    assert_eq!(prev.job_id, 0x2345_6705);
    assert_eq!(prev.channel_id, 0x0305);
}

#[test]
fn job_messages_have_their_fields() {
    let channel = ChannelInfo {
        channel_id: 7,
        extranonce1: [7, 0, 0, 0],
        miner_address: ADDR.to_string(),
        target: [0; 32],
    };
    let (prev, job) = build_job_messages(&channel, 99, &template()).unwrap();
    assert_eq!((prev.channel_id, prev.job_id), (7, 99));
    assert_eq!(prev.prev_hash[0], 0x1f);
    assert_eq!((job.channel_id, job.job_id), (7, 99));
    assert_eq!(job.min_ntime, Some(1_700_000_000));
    assert_eq!(job.version, 0x2000_0000);
    assert_eq!(*job.coinbase_tx_prefix.last().unwrap(), 36);
}

// ── connection ────────────────────────────────────────────────────────────────

#[test]
fn events_decide_what_becomes_of_a_connection() {
    let mut state = state_with(&[ADDR, "nobody"]);
    let step = handle_event(&mut state, &ConnectionEvent::ReadFailed, &rpc(&template()));
    assert_eq!(step.next, NextStep::Close);
    assert!(step.frames.is_empty());
    let step = handle_event(&mut state, &ConnectionEvent::TemplateChanged, &rpc(&template()));
    assert_eq!(
        step.next,
        NextStep::ContinueAfter { error: JobError::InvalidMinerAddress }
    );
    let frame = IncomingFrame::Sv2 { msg_type: 0x77, channel_msg: false, payload: vec![] };
    let step = handle_event(&mut state, &frame_event(frame), &rpc(&template()));
    assert_eq!(step.next, NextStep::Continue);
    let event = frame_event(IncomingFrame::HandShake);
    let step = handle_event(&mut state, &event, &rpc(&template()));
    assert_eq!(step.next, NextStep::CloseWith { error: MessageError::UnexpectedHandshake });
    let event = frame_event(incoming(&open_request(b"m")));
    let step = handle_event(&mut state, &event, &rpc(&template()));
    assert_eq!(step.next, NextStep::Continue);
    assert_eq!(step.frames.len(), 3);
    assert_eq!(state.channels.len(), 3);
}

#[test]
fn checked_events_refuse_what_cannot_be_served() {
    let mut bad = template();
    bad.transactions[0].txid = "x".to_string();
    let changed = ConnectionEvent::TemplateChanged;
    let open = frame_event(incoming(&open_request(b"m")));

    let mut state = state_with(&["nobody", ADDR]);
    assert!(handle_event_checked(&mut state, &changed, &rpc(&bad)).is_none());
    assert!(handle_event_checked(&mut state, &open, &rpc(&bad)).is_none());
    assert_eq!(state.channels.len(), 2);
    assert!(handle_event_checked(&mut state, &ConnectionEvent::ReadFailed, &rpc(&bad)).is_some());
    assert!(handle_event_checked(&mut state, &changed, &rpc(&template())).is_some());

    // Nobody's job gets as far as the transaction ids.
    let mut state = state_with(&["nobody"]);
    let step = handle_event_checked(&mut state, &changed, &rpc(&bad)).unwrap();
    assert_eq!(step.next, NextStep::ContinueAfter { error: JobError::InvalidMinerAddress });
    bad.bits = "no".to_string();
    let mut state = state_with(&[ADDR]);
    let step = handle_event_checked(&mut state, &changed, &rpc(&bad)).unwrap();
    assert_eq!(step.next, NextStep::ContinueAfter { error: JobError::BadBits });
    let step = handle_event_checked(&mut state, &open, &rpc(&bad)).unwrap();
    assert_eq!(step.frames.len(), 1);

    // No ids are left.
    let mut state = state_with(&[]);
    state.next_channel_id = u32::MAX;
    assert!(handle_event_checked(&mut state, &open, &rpc(&template())).is_none());
    let mut state = state_with(&[]);
    state.next_job_id = u32::MAX;
    assert!(handle_event_checked(&mut state, &open, &rpc(&template())).is_none());
}

#[test]
fn nothing_but_a_setup_opens_a_connection() {
    let first_frames = [
        (IncomingFrame::HandShake, SetupError::UnexpectedHandshake, 0),
        (
            incoming(&open_request(b"m")),
            SetupError::UnexpectedMessage { msg_type: MESSAGE_TYPE_OPEN_EXTENDED_MINING_CHANNEL },
            1,
        ),
        (
            incoming(&make_setup_connection_frame(Protocol::MiningProtocol, 3, 4)),
            SetupError::VersionMismatch { min_version: 3, max_version: 4 },
            1,
        ),
        (
            IncomingFrame::Sv2 { msg_type: 0, channel_msg: false, payload: vec![] },
            SetupError::Malformed,
            0,
        ),
    ];
    for (frame, error, answers) in first_frames {
        let mut connection = Connection::new(ADDR.to_string());
        let step = connection.serve(&frame_event(frame), &rpc(&template())).unwrap();
        assert_eq!(step.next, NextStep::Refuse { error });
        assert_eq!(step.frames.len(), answers);
        assert!(!connection.accepted);
        assert!(connection.state.channels.is_empty());
        assert!(connection.state.jobs.is_empty());
    }
}

#[test]
fn a_connection_is_served_from_its_setup_on() {
    let mut connection = Connection::new(ADDR.to_string());
    let step = connection.serve(&ConnectionEvent::TemplateChanged, &rpc(&template())).unwrap();
    assert_eq!(step.next, NextStep::Continue);
    assert!(step.frames.is_empty());
    let setup = incoming(&make_setup_connection_frame(Protocol::MiningProtocol, 2, 2));
    let step = connection.serve(&frame_event(setup), &rpc(&template())).unwrap();
    assert_eq!(step.next, NextStep::Continue);
    assert_eq!(step.frames, vec![vec![0, 0, 1, 6, 0, 0, 2, 0, 2, 0, 0, 0]]);
    assert!(connection.accepted);
    let open = frame_event(incoming(&open_request(b"m")));
    assert_eq!(connection.serve(&open, &rpc(&template())).unwrap().frames.len(), 3);
    let step = connection.serve(&ConnectionEvent::TemplateChanged, &rpc(&template())).unwrap();
    assert_eq!(step.frames.len(), 2);
    assert_eq!(connection.state.jobs.len(), 2);
    let step = connection.serve(&ConnectionEvent::ReadFailed, &rpc(&template())).unwrap();
    assert_eq!(step.next, NextStep::Close);
    assert!(connection.accepted);

    let mut bad = template();
    bad.transactions[0].txid = "x".to_string();
    assert!(connection.serve(&ConnectionEvent::TemplateChanged, &rpc(&bad)).is_none());
    let mut fresh = Connection::new(ADDR.to_string());
    let step = fresh.serve(&ConnectionEvent::ReadFailed, &rpc(&bad)).unwrap();
    assert_eq!(step.next, NextStep::Close);
}

#[test]
fn a_channel_is_granted_the_target_of_its_hash_rate() {
    let mut state = ConnectionState::new(ADDR.to_string());
    let target: [u8; 32] = std::array::from_fn(|i| i as u8);
    let raw = open_request(b"m");
    let reply = dispatch_message(&incoming(&raw), &mut state, &Some(target), &rpc(&template()));
    let mut payload =
        payload_of(&reply.frames[0], MESSAGE_TYPE_OPEN_EXTENDED_MINING_CHANNEL_SUCCESS, false);
    let grant: OpenExtendedMiningChannelSuccess = binary_sv2::from_bytes(&mut payload).unwrap();
    assert_eq!(grant.target.inner_as_ref(), &target);
    assert_eq!(state.channels[&0].target, target);
}

#[test]
fn requests_state_their_hash_rate() {
    let payload = open_request(b"test-miner")[Header::SIZE..].to_vec();
    assert_eq!(messages::nominal_rate_bits(&payload), Some(1000.0_f32.to_bits()));
    for cut in 0..payload.len() {
        assert_eq!(messages::nominal_rate_bits(&payload[..cut].to_vec()), None);
    }
}

// ── keys ──────────────────────────────────────────────────────────────────────

#[test]
fn responders_need_a_matching_key_pair() {
    let (public, private) = pool::keys::generate_keypair();
    assert!(AuthorityKeypair { public, private }.to_responder().is_ok());
    let mut wrong = public;
    wrong[0] ^= 1;
    let refused = AuthorityKeypair { public: wrong, private }.to_responder();
    assert!(matches!(refused, Err(InvalidKeypair)));
    let refused = AuthorityKeypair { public, private: [0; 32] }.to_responder();
    assert!(matches!(refused, Err(InvalidKeypair)));
}
