use binary_sv2::{Serialize, B032};
use bitcoin::block::Header;
use bitcoin::hashes::Hash as _;
use bitcoin::{Amount, Block, CompactTarget, OutPoint, ScriptBuf, Sequence, TxIn, TxOut, Witness};
use mining_sv2::{SubmitSharesError, SubmitSharesSuccess};
use pool::messages;
use pool::rpc::{BlockTemplate, TemplateTransaction};
use pool::shares::{handle_submit_shares, solve_block, ShareOutcome};
use pool::stratum_sv2::{
    dispatch_message, handle_event, handle_event_checked, send_jobs_to_all_channels,
    ConnectionEvent, ConnectionState, IncomingFrame, JobError, MessageError, NextStep, OpenError,
    Reply, SentJob, Template,
};
use pool::template_client::{read_template, RawTemplate as ProviderMessages};

const POOL: &str = "1A1zP1eP5QGefi2DMPTfTL5SLmv7DivfNa";
const MINER: &str = "bc1qar0srrr7xfkvy5l643lydnw9re59gtzzwf5mdq";
const ANY_HASH: [u8; 32] = [0xff; 32];
const NO_HASH: [u8; 32] = [0; 32];

/// A transaction, one for each number.
fn transaction(lock_time: u32) -> bitcoin::Transaction {
    bitcoin::Transaction {
        version: bitcoin::transaction::Version::TWO,
        lock_time: bitcoin::absolute::LockTime::from_consensus(lock_time),
        input: vec![TxIn {
            previous_output: OutPoint::new(bitcoin::Txid::from_byte_array([7; 32]), lock_time),
            script_sig: ScriptBuf::new(),
            sequence: Sequence::MAX,
            witness: Witness::new(),
        }],
        output: vec![TxOut { value: Amount::from_sat(5), script_pubkey: ScriptBuf::new() }],
    }
}

fn template() -> BlockTemplate {
    let transactions = (1..4)
        .map(|i| {
            let tx = transaction(i);
            TemplateTransaction {
                data: hex::encode(bitcoin::consensus::serialize(&tx)),
                txid: tx.compute_txid().to_string(),
                hash: tx.compute_wtxid().to_string(),
                fee: 0,
                weight: 400,
            }
        })
        .collect();
    BlockTemplate {
        template_id: 77,
        version: 0x2000_0000,
        previousblockhash: "000102030405060708090a0b0c0d0e0f101112131415161718191a1b1c1d1e1f"
            .to_string(),
        transactions,
        coinbasevalue: 5_000_000_000,
        bits: "207fffff".to_string(),
        height: 101,
        curtime: 1_700_000_000,
        target: "7fffff".to_string() + &"00".repeat(29),
        default_witness_commitment: Some("6a24aa21a9ed".to_string() + &"00".repeat(32)),
        longpollid: "x".to_string(),
    }
}

fn rpc(template: &BlockTemplate) -> Template {
    Template::Rpc { template: template.clone() }
}

fn open_payload(identity: &str) -> Vec<u8> {
    let mut payload = 42u32.to_le_bytes().to_vec();
    payload.push(identity.len() as u8);
    payload.extend_from_slice(identity.as_bytes());
    payload.extend_from_slice(&1000.0f32.to_bits().to_le_bytes());
    payload.extend_from_slice(&[0xff; 32]);
    payload.extend_from_slice(&4u16.to_le_bytes());
    payload
}

fn received(msg_type: u8, payload: Vec<u8>) -> IncomingFrame {
    IncomingFrame::Sv2 { msg_type, channel_msg: false, payload }
}

/// A connection with one channel of this target.
fn connection(target: [u8; 32]) -> ConnectionState {
    connection_on(&rpc(&template()), target)
}

fn connection_on(template: &Template, target: [u8; 32]) -> ConnectionState {
    let mut state = ConnectionState::new(POOL.to_string());
    let frame = received(0x13, open_payload(MINER));
    let reply = dispatch_message(&frame, &mut state, &Some(target), template);
    assert_eq!(reply.outcome, Ok(()));
    state
}

fn share(channel_id: u32, job_id: u32, nonce: u32) -> messages::SubmitSharesExtended {
    messages::SubmitSharesExtended {
        channel_id,
        sequence_number: 900 + nonce,
        job_id,
        nonce,
        ntime: 1_700_000_030,
        version: 0x2000_e000,
        extranonce: vec![9, 8, 7, 6],
    }
}

fn to_payload(share: &messages::SubmitSharesExtended) -> Vec<u8> {
    let msg = mining_sv2::SubmitSharesExtended {
        channel_id: share.channel_id,
        sequence_number: share.sequence_number,
        job_id: share.job_id,
        nonce: share.nonce,
        ntime: share.ntime,
        version: share.version,
        extranonce: B032::try_from(share.extranonce.clone()).unwrap(),
    };
    bytes(msg)
}

fn bytes<T: Serialize + binary_sv2::GetSize>(msg: T) -> Vec<u8> {
    binary_sv2::to_bytes(msg).unwrap()
}

fn submit(state: &mut ConnectionState, share: &messages::SubmitSharesExtended) -> Reply {
    let (channels, jobs) = (state.channels.len(), state.jobs.len());
    let frame = received(0x1b, to_payload(share));
    let reply = dispatch_message(&frame, state, &None, &rpc(&template()));
    assert_eq!(reply.outcome, Ok(()));
    assert_eq!(reply.frames.len(), 1);
    assert_eq!((state.channels.len(), state.jobs.len()), (channels, jobs));
    reply
}

fn refusal(reply: &Reply, share: &messages::SubmitSharesExtended) -> String {
    assert_eq!(reply.frames[0][..3], [0, 0x80, 0x1d]);
    let mut payload = reply.frames[0][6..].to_vec();
    let msg: SubmitSharesError = binary_sv2::from_bytes(&mut payload).unwrap();
    assert_eq!(msg.channel_id, share.channel_id);
    assert_eq!(msg.sequence_number, share.sequence_number);
    assert!(reply.share.is_none());
    msg.error_code.as_utf8_or_hex()
}

fn assert_accepted(reply: &Reply, share: &messages::SubmitSharesExtended) {
    assert_eq!(reply.frames[0][..3], [0, 0x80, 0x1c]);
    let mut payload = reply.frames[0][6..].to_vec();
    let msg: SubmitSharesSuccess = binary_sv2::from_bytes(&mut payload).unwrap();
    assert_eq!(msg.channel_id, share.channel_id);
    assert_eq!(msg.last_sequence_number, share.sequence_number);
    assert_eq!(msg.new_submits_accepted_count, 1);
    assert_eq!(msg.new_shares_sum, 1);
    assert!(reply.share.is_some());
}

/// The header of a share, computed from the job's coinbase and the transactions.
fn header_of(state: &ConnectionState, share: &messages::SubmitSharesExtended) -> Header {
    let key = ((share.channel_id as u64) << 32) + share.job_id as u64;
    header_by(state.jobs[&key].last().unwrap(), share)
}

fn header_by(job: &SentJob, share: &messages::SubmitSharesExtended) -> Header {
    let mut raw = job.coinbase_tx_prefix.clone();
    raw.extend_from_slice(&share.channel_id.to_le_bytes());
    raw.extend_from_slice(&[0; 28]);
    raw.extend_from_slice(&share.extranonce);
    raw.extend_from_slice(&job.coinbase_tx_suffix);
    let coinbase: bitcoin::Transaction = bitcoin::consensus::deserialize(&raw).unwrap();
    let mut txids = vec![coinbase.compute_txid()];
    txids.extend((1..4).map(|i| transaction(i).compute_txid()));
    let root = bitcoin::merkle_tree::calculate_root(txids.into_iter()).unwrap();
    Header {
        version: bitcoin::block::Version::from_consensus(share.version as i32),
        prev_blockhash: template().previousblockhash.parse().unwrap(),
        merkle_root: bitcoin::TxMerkleNode::from_byte_array(root.to_byte_array()),
        time: share.ntime,
        bits: CompactTarget::from_consensus(0x207f_ffff),
        nonce: share.nonce,
    }
}

#[test]
fn a_share_of_a_sent_job_is_accepted_and_credited() {
    let mut state = connection(ANY_HASH);
    let (mut blocks, mut shares) = (0, 0);
    for nonce in 0..32 {
        let share = share(0, 1, nonce);
        let header = header_of(&state, &share);
        let reply = submit(&mut state, &share);
        assert_accepted(&reply, &share);
        let credited = reply.share.unwrap();
        assert_eq!(credited.miner_address, MINER);
        assert_eq!(credited.timestamp, 1_700_000_030);
        assert_eq!(hex::encode(credited.block_hash_be), header.block_hash().to_string());

        let is_block = header.target().is_met_by(header.block_hash());
        assert_eq!(reply.solution.is_some(), is_block);
        if let Some(solution) = reply.solution {
            assert_eq!(solution.template_id, 77);
            assert_eq!(solution.version, 0x2000_e000);
            assert_eq!(solution.header_timestamp, 1_700_000_030);
            assert_eq!(solution.header_nonce, nonce);
            blocks += 1;
        } else {
            shares += 1;
        }
    }
    assert!(blocks > 0 && shares > 0);
}

#[test]
fn a_share_of_an_unknown_job_is_stale() {
    let mut state = connection(ANY_HASH);
    for (channel_id, job_id) in [(0, 2), (1, 1), (0, 0), (1, 0)] {
        let share = share(channel_id, job_id, 5);
        let reply = submit(&mut state, &share);
        assert_eq!(refusal(&reply, &share), "stale-share");
        assert!(reply.solution.is_none());
        let verdict = handle_submit_shares(&share, &state);
        assert!(matches!(verdict.outcome, ShareOutcome::Stale));
    }
}

#[test]
fn a_share_above_the_channels_target_is_too_easy() {
    let mut state = connection(NO_HASH);
    let mut blocks = 0;
    for nonce in 0..32 {
        let share = share(0, 1, nonce);
        let reply = submit(&mut state, &share);
        assert_eq!(refusal(&reply, &share), "difficulty-too-low");
        blocks += reply.solution.is_some() as u32;
    }
    assert!(blocks > 0, "a block is handed on all the same");
}

#[test]
fn a_share_may_be_as_high_as_the_target() {
    let mut state = connection(ANY_HASH);
    let share = share(0, 1, 3);
    let mut target = submit(&mut state, &share).share.unwrap().block_hash_be;
    target.reverse();
    let mut state = connection(target);
    let reply = submit(&mut state, &share);
    assert_accepted(&reply, &share);
    let lowest = target.iter().position(|b| *b > 0).unwrap();
    target[lowest] -= 1;
    target[..lowest].fill(0xff);
    let mut state = connection(target);
    let reply = submit(&mut state, &share);
    assert_eq!(refusal(&reply, &share), "difficulty-too-low");
}

#[test]
fn jobs_of_a_broadcast_are_kept_beside_the_first() {
    let mut state = connection(ANY_HASH);
    let mut next = template();
    next.template_id = 78;
    next.height = 102;
    assert_eq!(send_jobs_to_all_channels(&mut state, &rpc(&next)).outcome, Ok(()));
    assert_eq!(state.jobs.len(), 2);
    for (job_id, template_id) in [(1, 77), (102 << 8, 78)] {
        for nonce in 0..8 {
            let share = share(0, job_id, nonce);
            let reply = submit(&mut state, &share);
            assert_accepted(&reply, &share);
            if let Some(solution) = reply.solution {
                assert_eq!(solution.template_id, template_id);
            }
        }
    }
    let stale = share(0, 101 << 8, 0);
    assert_eq!(refusal(&submit(&mut state, &stale), &stale), "stale-share");
}

#[test]
fn a_share_counts_by_any_job_of_its_id() {
    let mut target = [0xff; 32];
    target[31] = 0x7f;
    let mut state = connection(target);
    for (template_id, coinbasevalue) in [(78, 1_000), (79, 2_000)] {
        let mut next = template();
        next.template_id = template_id;
        next.coinbasevalue = coinbasevalue;
        next.height = 102;
        assert_eq!(send_jobs_to_all_channels(&mut state, &rpc(&next)).outcome, Ok(()));
    }
    let key = 102 << 8;
    assert_eq!(state.jobs[&key].len(), 2);
    assert_eq!(state.jobs[&1].len(), 1);

    let mut seen = [0; 3];
    for nonce in 0..64 {
        let share = share(0, 102 << 8, nonce);
        let headers: Vec<Header> =
            state.jobs[&key].iter().map(|job| header_by(job, &share)).collect();
        let met = |header: &Header| header.block_hash().to_byte_array()[31] <= 0x7f;
        let is_block = |header: &Header| header.target().is_met_by(header.block_hash());

        let reply = submit(&mut state, &share);
        let by = [1, 0].into_iter().find(|i| met(&headers[*i]));
        match by {
            Some(i) => {
                assert_accepted(&reply, &share);
                let hash = hex::encode(reply.share.unwrap().block_hash_be);
                assert_eq!(hash, headers[i].block_hash().to_string());
                seen[i] += 1;
            }
            None => {
                assert_eq!(refusal(&reply, &share), "difficulty-too-low");
                seen[2] += 1;
            }
        }
        let block = [1, 0].into_iter().find(|i| is_block(&headers[*i]));
        let template_id = block.map(|i| 78 + i as u64);
        assert_eq!(reply.solution.map(|s| s.template_id), template_id);
    }
    assert!(seen.iter().all(|n| *n > 0));
}

#[test]
fn shares_that_cannot_be_read_end_the_connection() {
    let mut long = to_payload(&share(0, 1, 0));
    long[24] = 33;
    long.extend_from_slice(&[0; 40]);
    let good = to_payload(&share(0, 1, 0));
    let mut payloads: Vec<Vec<u8>> = (0..good.len()).map(|n| good[..n].to_vec()).collect();
    payloads.push(long);
    for payload in payloads {
        assert!(messages::read_submit_shares(&payload).is_none());
        let mut state = connection(ANY_HASH);
        let frame = received(0x1b, payload);
        let event = ConnectionEvent::Frame { frame, channel_target: None };
        let step = handle_event(&mut state, &event, &rpc(&template()));
        assert_eq!(step.next, NextStep::CloseWith { error: MessageError::MalformedShare });
        assert!(step.frames.is_empty());
    }
}

#[test]
fn shares_are_read_field_by_field() {
    let mut payload = to_payload(&share(3, 4, 5));
    payload.extend_from_slice(&[1, 2]);
    let read = messages::read_submit_shares(&payload).unwrap();
    assert_eq!((read.channel_id, read.job_id, read.nonce), (3, 4, 5));
    assert_eq!((read.sequence_number, read.ntime, read.version), (905, 1_700_000_030, 0x2000_e000));
    assert_eq!(read.extranonce, vec![9, 8, 7, 6]);
}

#[test]
fn a_solution_makes_the_block_of_its_share() {
    let mut state = connection(ANY_HASH);
    for nonce in 0..32 {
        let share = share(0, 1, nonce);
        let header = header_of(&state, &share);
        let Some(solution) = submit(&mut state, &share).solution else {
            continue;
        };
        let raw = solve_block(&template(), &solution).unwrap();
        let block: Block = bitcoin::consensus::deserialize(&raw).unwrap();
        assert_eq!(block.header, header);
        assert!(block.check_merkle_root());
        assert_eq!(block.txdata.len(), 4);
        assert_eq!(block.txdata[3], transaction(3));
        let coinbase = &block.txdata[0];
        assert_eq!(coinbase.input[0].witness.to_vec(), vec![vec![0; 32]]);
        assert_eq!(coinbase.output[0].value.to_sat(), 5_000_000_000);

        let mut short = solution.clone();
        short.coinbase_tx.truncate(43);
        assert!(solve_block(&template(), &short).is_none());
        let mut unreadable = template();
        unreadable.transactions[1].data = "0".to_string();
        assert!(solve_block(&unreadable, &solution).is_none());
        let mut unreadable = template();
        unreadable.bits = "x".to_string();
        assert!(solve_block(&unreadable, &solution).is_none());
        return;
    }
    panic!("half of all hashes are blocks");
}

#[test]
fn a_block_without_commitment_has_no_witness() {
    let mut plain = template();
    plain.default_witness_commitment = None;
    let mut state = connection_on(&rpc(&plain), ANY_HASH);
    for nonce in 0..32 {
        let share = share(0, 1, nonce);
        let header = header_of(&state, &share);
        let Some(solution) = submit(&mut state, &share).solution else {
            continue;
        };
        let raw = solve_block(&plain, &solution).unwrap();
        let block: Block = bitcoin::consensus::deserialize(&raw).unwrap();
        assert_eq!(block.header, header);
        assert!(block.txdata[0].input[0].witness.is_empty());
        assert!(block.check_merkle_root());
        return;
    }
    panic!("half of all hashes are blocks");
}

// ── templates of a provider ───────────────────────────────────────────────────

fn hash_of(i: u8) -> [u8; 32] {
    [i; 32]
}

/// The two messages of a provider, with or without a commitment's output.
fn provider_messages(outputs: &[TxOut]) -> ProviderMessages {
    let outputs_bytes: Vec<u8> =
        outputs.iter().flat_map(|o| bitcoin::consensus::serialize(o)).collect();
    let path: Vec<_> = [3, 4].map(|i| hash_of(i).into()).into();
    let new_template = template_distribution_sv2::NewTemplate {
        template_id: 0x1_0000_0042,
        future_template: true,
        version: 0x2000_0000,
        coinbase_tx_version: 2,
        coinbase_prefix: vec![0x01, 0x65].try_into().unwrap(),
        coinbase_tx_input_sequence: 0xffff_fffe,
        coinbase_tx_value_remaining: 1_234_567,
        coinbase_tx_outputs_count: outputs.len() as u32,
        coinbase_tx_outputs: outputs_bytes.try_into().unwrap(),
        coinbase_tx_locktime: 100,
        merkle_path: binary_sv2::Seq0255::new(path).unwrap(),
    };
    let set_new_prev_hash = template_distribution_sv2::SetNewPrevHash {
        template_id: 0x1_0000_0042,
        prev_hash: hash_of(9).into(),
        header_timestamp: 1_700_000_001,
        n_bits: 0x207f_ffff,
        target: hash_of(0x7f).into(),
    };
    ProviderMessages {
        new_template: bytes(new_template),
        set_new_prev_hash: bytes(set_new_prev_hash),
    }
}

fn commitment() -> TxOut {
    let script = hex::decode("6a24aa21a9ed".to_string() + &"00".repeat(32)).unwrap();
    TxOut { value: Amount::ZERO, script_pubkey: ScriptBuf::from_bytes(script) }
}

#[test]
fn provider_messages_are_read_field_by_field() {
    let messages = provider_messages(&[commitment()]);
    let read = read_template(&messages).unwrap();
    let (template, tip) = (&read.new_template, &read.set_new_prev_hash);
    assert_eq!((template.template_id, tip.template_id), (0x1_0000_0042, 0x1_0000_0042));
    assert!(template.future_template);
    assert_eq!((template.version, template.coinbase_tx_version), (0x2000_0000, 2));
    assert_eq!(template.coinbase_prefix, vec![0x01, 0x65]);
    assert_eq!(template.coinbase_tx_input_sequence, 0xffff_fffe);
    assert_eq!(template.coinbase_tx_value_remaining, 1_234_567);
    assert_eq!(template.coinbase_tx_outputs_count, 1);
    assert_eq!(template.coinbase_tx_outputs, bitcoin::consensus::serialize(&commitment()));
    assert_eq!(template.coinbase_tx_locktime, 100);
    assert_eq!(template.merkle_path, vec![hash_of(3), hash_of(4)]);
    assert_eq!((tip.prev_hash, tip.target), (hash_of(9), hash_of(0x7f)));
    assert_eq!((tip.header_timestamp, tip.n_bits), (1_700_000_001, 0x207f_ffff));

    let (first, second) = (&messages.new_template, &messages.set_new_prev_hash);
    for cut in 0..first.len() {
        let new_template = first[..cut].to_vec();
        let pair = ProviderMessages { new_template, set_new_prev_hash: second.clone() };
        assert!(read_template(&pair).is_none());
    }
    for cut in 0..second.len() {
        let set_new_prev_hash = second[..cut].to_vec();
        let pair = ProviderMessages { new_template: first.clone(), set_new_prev_hash };
        assert!(read_template(&pair).is_none());
    }
    let mut flag = messages.clone();
    flag.new_template[8] = 2;
    assert!(!read_template(&flag).unwrap().new_template.future_template);
}

#[test]
fn shares_of_provided_jobs_are_checked_and_handed_on() {
    for outputs in [vec![commitment()], vec![]] {
        let provided = read_template(&provider_messages(&outputs)).unwrap();
        let template = Template::Provided { template: provided };
        let mut state = connection_on(&template, ANY_HASH);
        let (mut blocks, mut shares) = (0, 0);
        for nonce in 0..32 {
            let share = share(0, 1, nonce);
            let reply = submit(&mut state, &share);
            assert_accepted(&reply, &share);
            let Some(solution) = reply.solution else {
                shares += 1;
                continue;
            };
            blocks += 1;
            assert_eq!(solution.template_id, 0x1_0000_0042);
            let tx: bitcoin::Transaction =
                bitcoin::consensus::deserialize(&solution.coinbase_tx).unwrap();
            assert_eq!(tx.output[0].value.to_sat(), 1_234_567);
            assert_eq!(tx.output[1..], outputs);
            assert_eq!(tx.input[0].sequence, Sequence(0xffff_fffe));
            assert_eq!(tx.input[0].witness.is_empty(), outputs.is_empty());
            assert!(tx.input[0].script_sig.to_bytes().starts_with(&[0x01, 0x65, 0, 0]));
            assert!(tx.input[0].script_sig.to_bytes().ends_with(&[0, 9, 8, 7, 6]));

            let mut root = tx.compute_txid().to_byte_array();
            for sibling in [hash_of(3), hash_of(4)] {
                let pair = [root, sibling].concat();
                root = bitcoin::hashes::sha256d::Hash::hash(&pair).to_byte_array();
            }
            let header = Header {
                version: bitcoin::block::Version::from_consensus(0x2000_e000),
                prev_blockhash: bitcoin::BlockHash::from_byte_array(hash_of(9)),
                merkle_root: bitcoin::TxMerkleNode::from_byte_array(root),
                time: 1_700_000_030,
                bits: CompactTarget::from_consensus(0x207f_ffff),
                nonce,
            };
            let hash = hex::encode(reply.share.unwrap().block_hash_be);
            assert_eq!(hash, header.block_hash().to_string());
            assert!(header.target().is_met_by(header.block_hash()));
        }
        assert!(blocks > 0 && shares > 0);
    }
}

#[test]
fn provided_templates_are_granted_and_broadcast() {
    let provided = read_template(&provider_messages(&[])).unwrap();
    let template = Template::Provided { template: provided.clone() };
    let mut state = ConnectionState::new(POOL.to_string());
    let frame = received(0x13, open_payload(MINER));
    let reply = dispatch_message(&frame, &mut state, &None, &template);
    assert_eq!(reply.frames.len(), 3);
    assert_eq!(state.channels[&0].target, hash_of(0x7f));
    let sent = send_jobs_to_all_channels(&mut state, &template);
    assert_eq!((sent.outcome, sent.frames.len()), (Ok(()), 2));
    // The low bits of the template's id, and the channel.
    assert!(state.jobs.contains_key(&0x4200));

    let mut nobody = ConnectionState::new("nobody".to_string());
    let frame = received(0x13, open_payload("x"));
    let error = OpenError::Job { error: JobError::InvalidMinerAddress };
    let reply = dispatch_message(&frame, &mut nobody, &None, &template);
    assert_eq!(reply.outcome, Err(MessageError::Open { error }));

    let mut large = provided.clone();
    large.new_template.coinbase_tx_outputs = vec![0; 65535];
    let error = OpenError::Job { error: JobError::CoinbaseSuffixTooLarge };
    let large = Template::Provided { template: large };
    let reply = dispatch_message(&frame, &mut state, &None, &large);
    assert_eq!(reply.outcome, Err(MessageError::Open { error }));

    let mut long = provided;
    long.new_template.coinbase_prefix = vec![0; 256];
    let long = Template::Provided { template: long };
    let event = ConnectionEvent::Frame { frame, channel_target: None };
    assert!(handle_event_checked(&mut state, &event, &long).is_none());
    assert!(handle_event_checked(&mut state, &ConnectionEvent::TemplateChanged, &long).is_none());
}
