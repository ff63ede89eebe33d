use bitcoin::absolute::LockTime;
use bitcoin::transaction::Version;
use bitcoin::{Amount, OutPoint, ScriptBuf, Sequence, Transaction, TxIn, TxOut, Witness};
use pool::coinbase::TxOutput;
use pool::jobs::{build_sv2_coinbase_from_tdp, SV2_EXTRANONCE_TOTAL};
use pool::node_ipc::{
    build_raw_template, fetch_template, reserved_weight, solution_verdict, BlockHeader, FetchError,
    NodeAction, NodeEvent, NodeSession, NodeTransaction, SolutionRejected, SubmitSolutionData,
    TemplateError, TxInput,
};

fn header_bytes(bits: u32) -> Vec<u8> {
    let mut out = 0x2000_0004u32.to_le_bytes().to_vec();
    out.extend_from_slice(&[0x11; 32]);
    out.extend_from_slice(&[0x22; 32]);
    out.extend_from_slice(&1_700_000_000u32.to_le_bytes());
    out.extend_from_slice(&bits.to_le_bytes());
    out.extend_from_slice(&7u32.to_le_bytes());
    out
}

fn coinbase(outputs: Vec<(u64, Vec<u8>)>) -> Transaction {
    Transaction {
        version: Version::TWO,
        lock_time: LockTime::from_consensus(100),
        input: vec![TxIn {
            previous_output: OutPoint::null(),
            script_sig: ScriptBuf::from_bytes(vec![1, 0x65]),
            sequence: Sequence::from_consensus(0xffff_fffe),
            witness: Witness::from_slice(&[vec![0u8; 32]]),
        }],
        output: outputs
            .into_iter()
            .map(|(value, script)| TxOut {
                value: Amount::from_sat(value),
                script_pubkey: ScriptBuf::from_bytes(script),
            })
            .collect(),
    }
}

#[test]
fn a_template_is_read_from_the_nodes_answers() {
    let tx = coinbase(vec![(5_000_000_000, vec![0x51]), (0, vec![0x6a, 1]), (7, vec![]), (0, vec![])]);
    let path = vec![vec![3u8; 32], vec![4u8; 32]];
    let raw = fetch_template(
        9,
        &header_bytes(0x207f_ffff),
        &bitcoin::consensus::serialize(&tx),
        &path,
    )
    .unwrap();
    let t = &raw.new_template;
    assert_eq!(t.template_id, 9);
    assert!(t.future_template);
    assert_eq!(t.version, 0x2000_0004);
    assert_eq!(t.coinbase_tx_version, 2);
    assert_eq!(t.coinbase_prefix, vec![1, 0x65]);
    assert_eq!(t.coinbase_tx_input_sequence, 0xffff_fffe);
    assert_eq!(t.coinbase_tx_value_remaining, 5_000_000_007);
    assert_eq!(t.coinbase_tx_outputs_count, 2);
    assert_eq!(
        t.coinbase_tx_outputs,
        vec![0, 0, 0, 0, 0, 0, 0, 0, 2, 0x6a, 1, 0, 0, 0, 0, 0, 0, 0, 0, 0]
    );
    assert_eq!(t.coinbase_tx_locktime, 100);
    assert_eq!(t.merkle_path, vec![[3u8; 32], [4u8; 32]]);
    let p = &raw.set_new_prev_hash;
    assert_eq!(p.template_id, 9);
    assert_eq!(p.prev_hash, [0x11; 32]);
    assert_eq!(p.header_timestamp, 1_700_000_000);
    assert_eq!(p.n_bits, 0x207f_ffff);
    let mut target = [0u8; 32];
    target[29..].copy_from_slice(&[0xff, 0xff, 0x7f]);
    assert_eq!(p.target, target);
}

#[test]
fn targets_match_the_compact_form() {
    let cases: [(u32, usize, [u8; 3]); 6] = [
        (0x1d00_ffff, 26, [0xff, 0xff, 0x00]),
        (0x0312_3456, 0, [0x56, 0x34, 0x12]),
        (0x0212_3456, 0, [0x34, 0x12, 0x00]),
        (0x0112_3456, 0, [0x12, 0x00, 0x00]),
        (0x0012_3456, 0, [0x00, 0x00, 0x00]),
        (0x0480_0000, 0, [0x00, 0x00, 0x00]),
    ];
    let tx = bitcoin::consensus::serialize(&coinbase(vec![]));
    for (bits, at, bytes) in cases {
        let raw = fetch_template(0, &header_bytes(bits), &tx, &vec![]).unwrap();
        let mut target = [0u8; 32];
        target[at..at + 3].copy_from_slice(&bytes);
        assert_eq!(raw.set_new_prev_hash.target, target);
    }
    // Places wrap at 32 bytes, and bytes above the 32nd are lost.
    let raw = fetch_template(0, &header_bytes(0x2312_3456), &tx, &vec![]).unwrap();
    assert_eq!(raw.set_new_prev_hash.target[..4], [0x56, 0x34, 0x12, 0]);
    let raw = fetch_template(0, &header_bytes(0x2212_3456), &tx, &vec![]).unwrap();
    assert_eq!(raw.set_new_prev_hash.target[31], 0x56);
    assert_eq!(raw.set_new_prev_hash.target[0], 0);
}

#[test]
fn the_miners_coinbase_pays_what_the_nodes_pays() {
    let tx = coinbase(vec![(5_000_000_000, vec![0x51]), (0, vec![0x6a, 1]), (7, vec![])]);
    let raw = fetch_template(
        1,
        &header_bytes(0x207f_ffff),
        &bitcoin::consensus::serialize(&tx),
        &vec![],
    )
    .unwrap();
    let t = raw.new_template;
    let parts = build_sv2_coinbase_from_tdp(
        &t.coinbase_prefix,
        t.coinbase_tx_version,
        t.coinbase_tx_input_sequence,
        t.coinbase_tx_value_remaining,
        t.coinbase_tx_outputs_count,
        &t.coinbase_tx_outputs,
        t.coinbase_tx_locktime,
        vec![0x52],
        true,
    );
    let mut full = parts.coinb1;
    full.extend_from_slice(&[5; SV2_EXTRANONCE_TOTAL]);
    full.extend_from_slice(&parts.coinb2);
    let mine: Transaction = bitcoin::consensus::deserialize(&full).unwrap();
    assert_eq!(mine.output.len(), 2);
    assert_eq!(mine.output[0].value.to_sat(), 5_000_000_007);
    assert_eq!(mine.output[0].script_pubkey.to_bytes(), vec![0x52]);
    assert_eq!(mine.output[1], tx.output[1]);
    assert_eq!(mine.input[0].sequence, tx.input[0].sequence);
    assert_eq!(mine.lock_time, tx.lock_time);
}

#[test]
fn unreadable_answers_give_no_template() {
    let tx = bitcoin::consensus::serialize(&coinbase(vec![]));
    let short = header_bytes(0)[..79].to_vec();
    assert!(matches!(fetch_template(0, &short, &tx, &vec![]), Err(FetchError::BadHeader)));
    let mut long = tx.clone();
    long.push(0);
    assert!(matches!(
        fetch_template(0, &header_bytes(0), &long, &vec![]),
        Err(FetchError::BadTransaction)
    ));
    // Version, marker, flag, no inputs, no outputs, lock time.
    let empty = vec![1, 0, 0, 0, 0, 1, 0, 0, 0, 0, 0, 0];
    assert!(matches!(
        fetch_template(0, &header_bytes(0), &empty, &vec![]),
        Err(FetchError::NoInput)
    ));
    let overflow = bitcoin::consensus::serialize(&coinbase(vec![(u64::MAX, vec![]), (1, vec![])]));
    assert!(matches!(
        fetch_template(0, &header_bytes(0), &overflow, &vec![]),
        Err(FetchError::Template { error: TemplateError::ValueOverflow })
    ));
}

fn plain(script_sig: Vec<u8>, outputs: Vec<TxOutput>) -> NodeTransaction {
    NodeTransaction {
        version: 1,
        inputs: vec![TxInput { script_sig, sequence: 0 }],
        outputs,
        lock_time: 0,
    }
}

#[test]
fn templates_fail_for_each_reason() {
    let header = BlockHeader { version: 1, prev_blockhash: [0; 32], time: 0, bits: 0 };
    let error = |cb: NodeTransaction, path: Vec<Vec<u8>>| {
        build_raw_template(0, &header, &cb, &path).err()
    };
    assert_eq!(error(plain(vec![0; 255], vec![]), vec![vec![0; 32]; 255]), None);
    assert_eq!(
        error(plain(vec![0; 256], vec![]), vec![vec![0; 31]]),
        Some(TemplateError::PrefixTooLong)
    );
    let large = TxOutput { value: 0, script_pubkey: vec![0; 65535] };
    assert_eq!(
        error(plain(vec![], vec![large]), vec![vec![0; 31]]),
        Some(TemplateError::OutputsTooLarge)
    );
    let mut path = vec![vec![0; 32]; 256];
    assert_eq!(error(plain(vec![], vec![]), path.clone()), Some(TemplateError::PathTooLong));
    path[3] = vec![0; 33];
    assert_eq!(error(plain(vec![], vec![]), path), Some(TemplateError::BadMerkleHash));
}

#[test]
fn reserved_weight_has_a_floor() {
    assert_eq!(reserved_weight(100), 2000);
    assert_eq!(reserved_weight(500), 2000);
    assert_eq!(reserved_weight(501), 2004);
    assert_eq!(reserved_weight(u32::MAX / 4), 4_294_967_292);
}

#[test]
fn sessions_follow_the_tip() {
    let mut session = NodeSession::new();
    assert_eq!(session.step(NodeEvent::Connected), NodeAction::Fetch { template_id: 0 });
    assert_eq!(session.step(NodeEvent::TemplateFetched), NodeAction::Publish);
    assert_eq!(session.step(NodeEvent::TemplatePublished), NodeAction::Wait);
    assert_eq!(session.step(NodeEvent::WaitTimedOut), NodeAction::Wait);
    assert_eq!(session.step(NodeEvent::SolutionFound), NodeAction::Submit);
    assert_eq!(session.step(NodeEvent::SolutionSubmitted), NodeAction::Wait);
    assert_eq!(session.step(NodeEvent::NewBlock), NodeAction::ReplaceAndFetch { template_id: 1 });
    assert_eq!(session.step(NodeEvent::TemplateFetched), NodeAction::Publish);
    assert_eq!(session.next_template_id, 2);
    assert_eq!(session.step(NodeEvent::NoListeners), NodeAction::Finish);
    assert_eq!(session.step(NodeEvent::FetchFailed), NodeAction::Abort);
    assert_eq!(session.step(NodeEvent::WaitFailed), NodeAction::Abort);
}

#[test]
fn rejected_solutions_name_their_template() {
    let solution = SubmitSolutionData {
        template_id: 5,
        version: 1,
        header_timestamp: 2,
        header_nonce: 3,
        coinbase_tx: vec![],
    };
    assert_eq!(solution_verdict(&solution, true), Ok(()));
    assert_eq!(solution_verdict(&solution, false), Err(SolutionRejected { template_id: 5 }));
}
