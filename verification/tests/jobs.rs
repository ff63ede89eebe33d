use bitcoin::hashes::sha256d;
use bitcoin::{Amount, Transaction};
use pool::jobs::{
    build_coinbase_parts, build_coinbase_script, build_merkle_branch, build_stratum_job,
    build_stratum_job_checked, build_sv2_coinbase_from_tdp, build_sv2_coinbase_parts,
    script_from_address, sha256d_pair, split_at_extranonce, split_at_sv2_extranonce,
    witness_commitment_script, write_varint, InvalidAddress, EXTRANONCE1_SIZE, EXTRANONCE2_SIZE,
    SV2_EXTRANONCE_TOTAL,
};
use pool::rpc::{BlockTemplate, TemplateTransaction};

// Valid mainnet bech32 address; no network is checked.
const REGTEST_ADDR: &str = "bc1qar0srrr7xfkvy5l643lydnw9re59gtzzwf5mdq";
const REGTEST_SCRIPT: &str = "0014e8df018c7e326cc253faac7e46cdc51e68542c42";
const EXTRANONCE_PLACEHOLDER: [u8; 8] = [0xde, 0xad, 0xbe, 0xef, 0xca, 0xfe, 0xba, 0xbe];

fn dummy_script() -> Vec<u8> {
    script_from_address(REGTEST_ADDR).unwrap()
}

fn display_to_internal(hash: &str) -> [u8; 32] {
    let mut bytes = hex::decode(hash).unwrap();
    bytes.reverse();
    bytes.try_into().unwrap()
}

fn double_sha(data: &[u8]) -> [u8; 32] {
    let hash: sha256d::Hash = bitcoin::hashes::Hash::hash(data);
    bitcoin::hashes::Hash::to_byte_array(hash)
}

/// The root that bitcoin computes over the hashes.
fn bitcoin_root(leaves: Vec<[u8; 32]>) -> [u8; 32] {
    let leaves: Vec<sha256d::Hash> =
        leaves.into_iter().map(bitcoin::hashes::Hash::from_byte_array).collect();
    let root = bitcoin::merkle_tree::calculate_root(leaves.into_iter()).unwrap();
    bitcoin::hashes::Hash::to_byte_array(root)
}

fn tx_with_id(txid: &str) -> TemplateTransaction {
    TemplateTransaction {
        txid: txid.to_string(),
        hash: txid.to_string(),
        data: "00".to_string(),
        fee: 0,
        weight: 400,
    }
}

fn fake_tx(byte: u8) -> TemplateTransaction {
    tx_with_id(&format!("{byte:02x}{:0<62}", ""))
}

/// Climbs the branch from the coinbase hash: sha256d(current || sibling) at each level.
fn apply_branch(mut hash: [u8; 32], branch: &[[u8; 32]]) -> [u8; 32] {
    for sibling in branch {
        let mut data = [0u8; 64];
        data[..32].copy_from_slice(&hash);
        data[32..].copy_from_slice(sibling);
        hash = double_sha(&data);
    }
    hash
}

fn template() -> BlockTemplate {
    BlockTemplate {
        template_id: 0,
        version: 0x2000_0000,
        previousblockhash: "000102030405060708090a0b0c0d0e0f101112131415161718191a1b1c1d1e1f"
            .to_string(),
        transactions: vec![fake_tx(0x11), fake_tx(0x22), fake_tx(0x33)],
        coinbasevalue: 5_000_000_000,
        bits: "207fffff".to_string(),
        height: 100,
        curtime: 0x6500_0000,
        target: format!("7fffff{:0<58}", ""),
        default_witness_commitment: Some("6a24aa21a9ed".to_string() + &"00".repeat(32)),
        longpollid: "x".to_string(),
    }
}

// ── coinbase split ────────────────────────────────────────────────────────────

#[test]
fn coinbase_splits_at_extranonce() {
    let parts = build_coinbase_parts(100, 5_000_000_000, dummy_script(), None);

    let extranonce1 = [0xaau8; EXTRANONCE1_SIZE];
    let extranonce2 = [0xbbu8; EXTRANONCE2_SIZE];
    let mut full = parts.coinb1.clone();
    full.extend_from_slice(&extranonce1);
    full.extend_from_slice(&extranonce2);
    full.extend_from_slice(&parts.coinb2);

    // Placeholder must be gone
    assert!(!full
        .windows(EXTRANONCE_PLACEHOLDER.len())
        .any(|w| w == EXTRANONCE_PLACEHOLDER));
}

#[test]
fn coinbase_roundtrip_deserializes() {
    let parts = build_coinbase_parts(1, 5_000_000_000, dummy_script(), None);

    let extranonce1 = [0x00u8; EXTRANONCE1_SIZE];
    let extranonce2 = [0x00u8; EXTRANONCE2_SIZE];
    let mut full = parts.coinb1.clone();
    full.extend_from_slice(&extranonce1);
    full.extend_from_slice(&extranonce2);
    full.extend_from_slice(&parts.coinb2);

    // Must deserialize as a valid Bitcoin transaction
    let tx: Transaction =
        bitcoin::consensus::deserialize(&full).expect("coinbase must be a valid transaction");

    assert_eq!(tx.input.len(), 1);
    assert!(tx.input[0].previous_output.is_null());
}

#[test]
fn coinbase_with_witness_commitment_has_two_outputs() {
    let wc_hex = "6a24aa21a9ed".to_string() + &"00".repeat(32);
    let wc = witness_commitment_script(&wc_hex);
    let parts = build_coinbase_parts(1, 5_000_000_000, dummy_script(), Some(wc));

    let extranonce = [0u8; EXTRANONCE1_SIZE + EXTRANONCE2_SIZE];
    let mut full = parts.coinb1.clone();
    full.extend_from_slice(&extranonce);
    full.extend_from_slice(&parts.coinb2);

    let tx: Transaction = bitcoin::consensus::deserialize(&full).unwrap();
    assert_eq!(tx.output.len(), 2);
    assert_eq!(tx.output[1].value, Amount::ZERO);
}

#[test]
fn coinbase_pieces_have_their_exact_bytes() {
    let parts = build_coinbase_parts(100, 5_000_000_000, dummy_script(), None);
    let coinb1 = "0100000001".to_string()
        + &"00".repeat(32)
        + "ffffffff1a01640e2f6c6f74746572792d706f6f6c2f08";
    assert_eq!(hex::encode(&parts.coinb1), coinb1);
    let coinb2 = "ffffffff0100f2052a0100000016".to_string() + REGTEST_SCRIPT + "00000000";
    assert_eq!(hex::encode(&parts.coinb2), coinb2);
}

#[test]
fn pieces_differ_between_miners_behind_the_extranonce_only() {
    for commitment in [None, Some(vec![0x6a, 1, 7])] {
        let a = build_coinbase_parts(100, 5_000_000_000, vec![0x51], commitment.clone());
        let b = build_coinbase_parts(100, 5_000_000_000, vec![0x51, 0x52], commitment.clone());
        let c = build_coinbase_parts(100, 5_000_000_000, vec![0x53], commitment);
        assert_eq!(a.coinb1, b.coinb1);
        assert_eq!(a.coinb1, c.coinb1);
        assert_ne!(a.coinb2, b.coinb2);
        assert_ne!(a.coinb2, c.coinb2);
        assert_ne!(b.coinb2, c.coinb2);
    }
}

#[test]
fn heights_are_pushed_as_bitcoin_pushes_them() {
    for height in [0u32, 1, 16, 17, 127, 128, 255, 256, 32768, 0x7f_ffff, 0x80_0000, 840_000, u32::MAX] {
        let script = build_coinbase_script(height, &vec![7u8; 8]);
        let tag = bitcoin::script::PushBytesBuf::try_from(b"/lottery-pool/".to_vec()).unwrap();
        let nonce = bitcoin::script::PushBytesBuf::try_from(vec![7u8; 8]).unwrap();
        let expected = bitcoin::script::Builder::new()
            .push_int(height as i64)
            .push_slice(tag)
            .push_slice(nonce)
            .into_script();
        assert_eq!(script, expected.to_bytes());
    }
    assert_eq!(build_coinbase_script(128, &vec![]), hex::decode("0280000e2f6c6f74746572792d706f6f6c2f00").unwrap());
}

#[test]
fn height_bytes_that_look_like_the_placeholder_do_not_move_the_cut() {
    // Any bytes may occur in the pushed height.
    for height in [0xefbe_adde, 0xcccc_cccc, 0x4ecc_cccc, 0x5ead_beef] {
        let parts = build_coinbase_parts(height, 1, dummy_script(), None);
        assert_eq!(*parts.coinb1.last().unwrap(), 8);
        assert_eq!(&parts.coinb2[..4], &[0xff; 4]);
        let parts = build_sv2_coinbase_parts(height, 1, dummy_script(), None);
        assert_eq!(*parts.coinb1.last().unwrap(), 36);
        assert_eq!(&parts.coinb2[..4], &[0xff; 4]);
    }
}

#[test]
fn sv2_pieces_make_the_transaction() {
    let wc = witness_commitment_script("6a");
    let parts = build_sv2_coinbase_parts(840_000, 312_500_000, dummy_script(), Some(wc));
    let mut full = parts.coinb1.clone();
    full.extend_from_slice(&[0x5a; SV2_EXTRANONCE_TOTAL]);
    full.extend_from_slice(&parts.coinb2);
    let tx: Transaction = bitcoin::consensus::deserialize(&full).unwrap();
    assert_eq!(tx.output[0].value.to_sat(), 312_500_000);
    assert_eq!(tx.output[0].script_pubkey.to_bytes(), dummy_script());
    assert_eq!(tx.output[1].script_pubkey.to_bytes(), vec![0x6a]);
    assert!(tx.input[0].script_sig.to_bytes().ends_with(&[0x5a; SV2_EXTRANONCE_TOTAL]));
}

#[test]
fn split_takes_the_first_placeholder() {
    let mut raw = vec![1, 2, 3];
    raw.extend_from_slice(&EXTRANONCE_PLACEHOLDER);
    raw.push(9);
    raw.extend_from_slice(&EXTRANONCE_PLACEHOLDER);
    let parts = split_at_extranonce(raw);
    assert_eq!(parts.coinb1, vec![1, 2, 3]);
    assert_eq!(parts.coinb2.len(), 9);

    let mut raw = vec![0xcc; 37];
    raw.push(4);
    let parts = split_at_sv2_extranonce(raw);
    assert!(parts.coinb1.is_empty());
    assert_eq!(parts.coinb2, vec![0xcc, 4]);
}

// ── coinbase from a distributed template ──────────────────────────────────────

#[test]
fn tdp_pieces_have_their_exact_bytes() {
    let parts = build_sv2_coinbase_from_tdp(
        &[0x51, 0x52],
        2,
        0xffff_fffe,
        50,
        1,
        &[0, 0, 0, 0, 0, 0, 0, 0, 1, 0x6a],
        99,
        vec![0x51],
        false,
    );
    let coinb1 = "0200000001".to_string() + &"00".repeat(32) + "ffffffff265152";
    assert_eq!(hex::encode(&parts.coinb1), coinb1);
    assert_eq!(
        hex::encode(&parts.coinb2),
        "feffffff02320000000000000001510000000000000000016a63000000"
    );
}

#[test]
fn tdp_pieces_make_the_transaction_with_and_without_witness() {
    for use_segwit in [false, true] {
        let parts = build_sv2_coinbase_from_tdp(
            &[0x03, 1, 2, 3],
            2,
            0xffff_ffff,
            5_000_000_000,
            1,
            &[0, 0, 0, 0, 0, 0, 0, 0, 1, 0x6a],
            0,
            dummy_script(),
            use_segwit,
        );
        let mut full = parts.coinb1.clone();
        full.extend_from_slice(&[0u8; SV2_EXTRANONCE_TOTAL]);
        full.extend_from_slice(&parts.coinb2);
        let tx: Transaction = bitcoin::consensus::deserialize(&full).unwrap();
        assert!(tx.input[0].previous_output.is_null());
        assert_eq!(tx.output.len(), 2);
        assert_eq!(tx.output[0].value.to_sat(), 5_000_000_000);
        assert_eq!(tx.output[0].script_pubkey.to_bytes(), dummy_script());
        if use_segwit {
            assert_eq!(tx.input[0].witness.to_vec(), vec![vec![0u8; 32]]);
        } else {
            assert!(tx.input[0].witness.is_empty());
        }
    }
}

#[test]
fn varints_match_bitcoin() {
    for n in [0u64, 1, 0xfc, 0xfd, 0xffff, 0x1_0000, 0xffff_ffff, 0x1_0000_0000, u64::MAX] {
        let mut buf = vec![0xaa];
        write_varint(&mut buf, n);
        let expected = bitcoin::consensus::serialize(&bitcoin::VarInt(n));
        assert_eq!(buf[0], 0xaa);
        assert_eq!(&buf[1..], &expected[..]);
    }
    let mut buf = vec![];
    write_varint(&mut buf, 0x1234);
    assert_eq!(buf, vec![0xfd, 0x34, 0x12]);
}

// ── merkle branch ─────────────────────────────────────────────────────────────

#[test]
fn merkle_branch_empty() {
    assert!(build_merkle_branch(&[]).is_empty());
}

#[test]
fn merkle_branch_one_tx() {
    let branch = build_merkle_branch(&[fake_tx(0xaa)]);
    assert_eq!(branch.len(), 1);
    // txid "aa00...00" is reversed to internal byte order → 0xaa is at position 31
    assert_eq!(branch[0][31], 0xaa);
}

#[test]
fn merkle_branch_two_txs_has_two_levels() {
    let branch = build_merkle_branch(&[fake_tx(0x01), fake_tx(0x02)]);
    assert_eq!(branch.len(), 2);
}

#[test]
fn merkle_branch_is_as_long_as_the_count_has_digits() {
    for count in 0..70usize {
        let txs: Vec<_> = (0..count).map(|i| fake_tx(i as u8)).collect();
        let digits = usize::BITS - count.leading_zeros();
        assert_eq!(build_merkle_branch(&txs).len(), digits as usize);
    }
}

#[test]
fn merkle_branch_gives_the_root_of_mainnet_blocks() {
    // Block 170.
    let branch = build_merkle_branch(&[tx_with_id(
        "f4184fc596403b9d638783cf57adfe4c75c605f6356fbc91338530e9831e9e16",
    )]);
    let coinbase = "b1fea52486ce0c62bb442b530a3f0132b826c74e473d1f2c220bfa78111c5082";
    assert_eq!(
        apply_branch(display_to_internal(coinbase), &branch),
        display_to_internal("7dac2c5666815c17a3b36427de37bb9d2e2c5ccec3f8633eb91a4205cb4c10ff")
    );
    // Block 100000.
    let branch = build_merkle_branch(&[
        tx_with_id("fff2525b8931402dd09222c50775608f75787bd2b87e56995a7bdd30f79702c4"),
        tx_with_id("6359f0868171b1d194cbee1af2f16ea598ae8fad666d9b012c8ed2b79a236ec4"),
        tx_with_id("e9a66845e05d5abc0ad04ec80f774a7e585c6e8db975962d069a522137b80c1d"),
    ]);
    let coinbase = "8c14f0db3df150123e6f3dbbf30f8b955a8249b62ac1d1ff16284aefa3d06d87";
    assert_eq!(
        apply_branch(display_to_internal(coinbase), &branch),
        display_to_internal("f3e94742aca4b5ef85488dc37c06c3282295ffec960994b2c0d5ac2a25a95766")
    );
}

#[test]
fn merkle_branch_gives_the_root_for_any_number_of_transactions() {
    for count in 0..40u8 {
        let txs: Vec<TemplateTransaction> = (0..count).map(|i| fake_tx(i + 1)).collect();
        let branch = build_merkle_branch(&txs);
        let coinbase = [0xc0u8; 32];
        let mut leaves = vec![coinbase];
        for tx in &txs {
            leaves.push(display_to_internal(&tx.txid));
        }
        assert_eq!(apply_branch(coinbase, &branch), bitcoin_root(leaves));
    }
}

#[test]
fn pair_hash_is_the_double_sha_of_both() {
    let hash = sha256d_pair(&[1u8; 32], &[2u8; 32]);
    let mut data = vec![1u8; 32];
    data.extend_from_slice(&[2u8; 32]);
    assert_eq!(hash, double_sha(&data));
    assert_ne!(hash, sha256d_pair(&[2u8; 32], &[1u8; 32]));
}

// ── addresses ─────────────────────────────────────────────────────────────────

#[test]
fn addresses_give_their_scripts() {
    assert_eq!(hex::encode(script_from_address(REGTEST_ADDR).unwrap()), REGTEST_SCRIPT);
    let legacy = script_from_address("1A1zP1eP5QGefi2DMPTfTL5SLmv7DivfNa").unwrap();
    assert_eq!(hex::encode(legacy), "76a91462e907b15cbf27d5425399ebf6f0fb50ebb88f1888ac");
    assert_eq!(script_from_address("not-a-valid-address"), Err(InvalidAddress));
    assert_eq!(script_from_address(""), Err(InvalidAddress));
}

#[test]
fn commitment_is_its_bytes() {
    assert_eq!(witness_commitment_script("6A24aa"), vec![0x6a, 0x24, 0xaa]);
}

// ── stratum job ───────────────────────────────────────────────────────────────

#[test]
fn stratum_job_has_its_exact_fields() {
    let job = build_stratum_job(&template(), REGTEST_ADDR, "job-0", true).unwrap();
    assert_eq!(job.job_id, "job-0");
    assert_eq!(
        job.prevhash,
        "1f1e1d1c1b1a191817161514131211100f0e0d0c0b0a09080706050403020100"
    );
    let coinb1 = "0100000001".to_string()
        + &"00".repeat(32)
        + "ffffffff1a01640e2f6c6f74746572792d706f6f6c2f08";
    assert_eq!(job.coinb1, coinb1);
    let coinb2 = "ffffffff0200f2052a0100000016".to_string()
        + REGTEST_SCRIPT
        + "0000000000000000266a24aa21a9ed"
        + &"00".repeat(32)
        + "00000000";
    assert_eq!(job.coinb2, coinb2);
    assert_eq!(job.merkle_branch.len(), 2);
    assert_eq!(job.merkle_branch[0], "00".repeat(31) + "11");
    assert_eq!(job.version, "20000000");
    assert_eq!(job.nbits, "207fffff");
    assert_eq!(job.ntime, "65000000");
    assert!(job.clean_jobs);
}

#[test]
fn stratum_job_assembles_into_a_block_of_the_template() {
    let t = template();
    let job = build_stratum_job(&t, REGTEST_ADDR, "job-0", true).unwrap();
    let mut raw = hex::decode(&job.coinb1).unwrap();
    raw.extend_from_slice(&[0u8; EXTRANONCE1_SIZE]);
    raw.extend_from_slice(&[0u8; EXTRANONCE2_SIZE]);
    raw.extend_from_slice(&hex::decode(&job.coinb2).unwrap());
    let tx: Transaction = bitcoin::consensus::deserialize(&raw).unwrap();
    assert!(tx.input[0].previous_output.is_null());
    let branch: Vec<[u8; 32]> = job
        .merkle_branch
        .iter()
        .map(|h| hex::decode(h).unwrap().try_into().unwrap())
        .collect();
    let coinbase: [u8; 32] = bitcoin::hashes::Hash::to_byte_array(tx.compute_txid());
    let mut leaves = vec![coinbase];
    for other in &t.transactions {
        leaves.push(display_to_internal(&other.txid));
    }
    assert_eq!(apply_branch(coinbase, &branch), bitcoin_root(leaves));
}

#[test]
fn stratum_job_needs_an_address() {
    let out = build_stratum_job(&template(), "nobody", "j", false);
    assert!(matches!(out, Err(InvalidAddress)));
}

#[test]
fn checked_stratum_job_refuses_a_malformed_template() {
    assert!(matches!(
        build_stratum_job_checked(&template(), REGTEST_ADDR, "j", false),
        Some(Ok(_))
    ));
    let mut bad = template();
    bad.default_witness_commitment = Some("6".to_string());
    assert!(build_stratum_job_checked(&bad, REGTEST_ADDR, "j", false).is_none());
    let mut bad = template();
    bad.transactions[1].txid = "00".repeat(31);
    assert!(build_stratum_job_checked(&bad, REGTEST_ADDR, "j", false).is_none());
    let mut bad = template();
    bad.previousblockhash = "zz".to_string();
    assert!(build_stratum_job_checked(&bad, REGTEST_ADDR, "j", false).is_none());
    assert!(matches!(
        build_stratum_job_checked(&bad, "nobody", "j", false),
        Some(Err(InvalidAddress))
    ));
}
