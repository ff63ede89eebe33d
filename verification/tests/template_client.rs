use binary_sv2::GetSize;
use common_messages_sv2::{Protocol, SetupConnection};
use framing_sv2::header::Header;
use pool::node_ipc::SubmitSolutionData;
use pool::stratum_sv2::IncomingFrame;
use pool::template_client::{
    authority_key_path, authority_pubkey, coinbase_output_constraints,
    expect_setup_connection_success, initiator, next_msg, setup_connection, submit_solution,
    AuthorityKeyError, CoinbaseTooLarge, InvalidPublicKey, Paired, Pairing, SetupReplyError,
    TP_REGTEST_PORT,
};
use template_distribution_sv2::{CoinbaseOutputConstraints, SubmitSolution};

#[test]
fn setup_message_is_what_the_provider_reads() {
    let frame = setup_connection(TP_REGTEST_PORT);
    let header = Header::from_bytes(&frame).unwrap();
    assert_eq!((header.msg_type(), header.ext_type()), (0, 0));
    let mut payload = frame[Header::SIZE..].to_vec();
    let size = payload.len();
    let msg: SetupConnection = binary_sv2::from_bytes(&mut payload).unwrap();
    assert_eq!(msg.get_size(), size);
    assert_eq!(msg.protocol, Protocol::TemplateDistributionProtocol);
    assert_eq!((msg.min_version, msg.max_version, msg.flags), (2, 2, 0));
    assert_eq!(msg.endpoint_host.as_utf8_or_hex(), "127.0.0.1");
    assert_eq!(msg.endpoint_port, 18447);
    assert_eq!(msg.vendor.as_utf8_or_hex(), "lottery-pool");
    assert_eq!(msg.hardware_version.as_utf8_or_hex(), "0.1");
    assert_eq!(msg.firmware.as_utf8_or_hex(), "0.1");
    assert_eq!(msg.device_id.as_utf8_or_hex(), "pool");
}

#[test]
fn constraints_have_their_exact_bytes() {
    let frame = coinbase_output_constraints(100);
    assert_eq!(frame, vec![0, 0, 0x70, 6, 0, 0, 100, 0, 0, 0, 0x90, 0x01]);
    let mut payload = frame[Header::SIZE..].to_vec();
    let msg: CoinbaseOutputConstraints = binary_sv2::from_bytes(&mut payload).unwrap();
    assert_eq!(msg.coinbase_output_max_additional_size, 100);
    assert_eq!(msg.coinbase_output_max_additional_sigops, 400);
}

#[test]
fn only_success_sets_up_the_connection() {
    let frame = |msg_type: u8| IncomingFrame::Sv2 { msg_type, channel_msg: false, payload: vec![] };
    assert_eq!(expect_setup_connection_success(&frame(1)), Ok(()));
    assert_eq!(
        expect_setup_connection_success(&frame(2)),
        Err(SetupReplyError::UnexpectedMessage { msg_type: 2 })
    );
    assert_eq!(
        expect_setup_connection_success(&IncomingFrame::HandShake),
        Err(SetupReplyError::UnexpectedHandshake)
    );
    assert!(next_msg(IncomingFrame::HandShake).is_err());
    assert_eq!(
        next_msg(IncomingFrame::Sv2 { msg_type: 3, channel_msg: false, payload: vec![4] }).unwrap(),
        (3, vec![4])
    );
}

#[test]
fn templates_pair_with_the_previous_hash_behind_them() {
    let mut pairing = Pairing::new();
    assert!(matches!(pairing.on_message(0x72, vec![0]), Paired::NothingPending));
    assert!(matches!(pairing.on_message(0x71, vec![1]), Paired::Pending));
    assert!(matches!(pairing.on_message(0x71, vec![2]), Paired::Pending));
    assert!(matches!(pairing.on_message(0x74, vec![9]), Paired::Unexpected { msg_type: 0x74 }));
    match pairing.on_message(0x72, vec![3]) {
        Paired::Pair { template } => {
            assert_eq!(template.new_template, vec![2]);
            assert_eq!(template.set_new_prev_hash, vec![3]);
        }
        _ => panic!("a pair"),
    }
    assert!(matches!(pairing.on_message(0x72, vec![4]), Paired::NothingPending));
}

#[test]
fn authority_keys_come_from_their_file() {
    // The generator's x coordinate belongs to the secret 1.
    let mut file = vec![1u8];
    file.extend_from_slice(&[0; 31]);
    file.push(1);
    let key = authority_pubkey(&file).unwrap();
    assert_eq!(
        hex::encode(key),
        "79be667ef9dcbbac55a06295ce870b07029bfcdb2dce28d959f2815b16f81798"
    );
    file[32] = 0;
    assert_eq!(authority_pubkey(&file), Err(AuthorityKeyError::NoSecretKey));
    file.push(0);
    assert_eq!(authority_pubkey(&file), Err(AuthorityKeyError::WrongLength { len: 34 }));
    assert_eq!(authority_key_path("/data"), "/data/regtest/sv2_authority_key");
}

#[test]
fn derived_keys_give_an_initiator() {
    let mut file = vec![1u8];
    file.extend_from_slice(&[7; 32]);
    let key = authority_pubkey(&file).unwrap();
    assert!(initiator(key).is_ok());
    // Above the field's prime, and a number whose curve equation has no root.
    assert_eq!(initiator([0xff; 32]).err(), Some(InvalidPublicKey));
    let mut five = [0; 32];
    five[31] = 5;
    assert_eq!(initiator(five).err(), Some(InvalidPublicKey));
}

#[test]
fn solutions_are_what_the_provider_reads() {
    let mut solution = SubmitSolutionData {
        template_id: 0x0102_0304_0506_0708,
        version: 0x2000_0000,
        header_timestamp: 1_700_000_000,
        header_nonce: 99,
        coinbase_tx: vec![1, 2, 3],
    };
    let frame = submit_solution(&solution).unwrap();
    assert_eq!(frame[..6], [0, 0, 0x76, 25, 0, 0]);
    assert_eq!(frame[6..14], [8, 7, 6, 5, 4, 3, 2, 1]);
    let mut payload = frame[Header::SIZE..].to_vec();
    let msg: SubmitSolution = binary_sv2::from_bytes(&mut payload).unwrap();
    assert_eq!(msg.template_id, solution.template_id);
    assert_eq!(msg.version, solution.version);
    assert_eq!(msg.header_timestamp, solution.header_timestamp);
    assert_eq!(msg.header_nonce, solution.header_nonce);
    assert_eq!(msg.coinbase_tx.to_vec(), solution.coinbase_tx);
    solution.coinbase_tx = vec![0; 65535];
    assert!(submit_solution(&solution).is_ok());
    solution.coinbase_tx.push(0);
    assert_eq!(submit_solution(&solution), Err(CoinbaseTooLarge));
}
