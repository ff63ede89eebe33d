use pool::db::{
    at_most, backwards, better_share_hash, count_share, difficulty_ratio, epoch_seconds,
    floor_minute, flush_inner, hashrate_cutoff, now_secs, Batch, DbEvent, DbWrite, MinerSeen,
    MinerStats, MinuteWindow, QueueEvent, ShareEvent, WorkerAction, ADDRESS_DIFFICULTY,
    ADD_TO_MINUTE, CONNECTION_PRAGMAS, COUNT_MINUTE, COUNT_SHARE, INSERT_MINER, INSERT_SHARE,
    MINER_STATS, MINUTE_RETENTION_SECS, POOL_DIFFICULTY, PRUNE_MINUTES, SCHEMA,
};
use rusqlite::{Connection, OptionalExtension};

fn in_memory() -> Connection {
    let conn = Connection::open_in_memory().unwrap();
    conn.execute_batch(CONNECTION_PRAGMAS).unwrap();
    conn.execute_batch(SCHEMA).unwrap();
    conn
}

fn share(address: &str, difficulty: f64, block_hash_be: [u8; 32], timestamp: i64) -> ShareEvent {
    ShareEvent {
        miner_address: address.to_string(),
        difficulty_bits: difficulty.to_bits(),
        block_hash_be,
        timestamp,
    }
}

fn window(address: &str, difficulty: f64) -> MinuteWindow {
    MinuteWindow { address: address.to_string(), difficulties: vec![difficulty.to_bits()] }
}

/// What is recorded of a miner.
fn stats_of(conn: &Connection, address: &str) -> MinerStats {
    let row: Option<(i64, Option<Vec<u8>>)> = conn
        .query_row(MINER_STATS, (address,), |r| Ok((r.get(0)?, r.get(1)?)))
        .optional()
        .unwrap();
    let (shares_count, best) = row.unwrap_or((0, None));
    MinerStats { shares_count, best_share_hash: best.map(|b| b.try_into().unwrap()) }
}

/// Carries out the writes of a flush.
fn write_all(conn: &Connection, writes: Vec<DbWrite>) {
    for write in writes {
        match write {
            DbWrite::InsertMiner { address, first_seen } => {
                conn.execute(INSERT_MINER, (address, first_seen)).unwrap();
            }
            DbWrite::InsertShare { share } => {
                let difficulty = f64::from_bits(share.difficulty_bits);
                let hash = share.block_hash_be.to_vec();
                conn.execute(INSERT_SHARE, (share.miner_address, difficulty, hash, share.timestamp))
                    .unwrap();
            }
            DbWrite::CountShare { address, difficulty_bits, block_hash_be } => {
                let after = count_share(&stats_of(conn, &address), &block_hash_be);
                let difficulty = f64::from_bits(difficulty_bits);
                let best = after.best_share_hash.map(|h| h.to_vec());
                conn.execute(COUNT_SHARE, (address, difficulty, after.shares_count, best)).unwrap();
            }
            DbWrite::AddToMinute { address, minute_ts, difficulties } => {
                let sum = difficulties.iter().fold(0.0, |sum, bits| sum + f64::from_bits(*bits));
                conn.execute(ADD_TO_MINUTE, (address, minute_ts, sum)).unwrap();
            }
            DbWrite::CountMinute { address } => {
                conn.execute(COUNT_MINUTE, (address,)).unwrap();
            }
            DbWrite::PruneMinutes { cutoff } => {
                conn.execute(PRUNE_MINUTES, (cutoff,)).unwrap();
            }
        }
    }
}

fn flush(conn: &Connection, shares: Vec<ShareEvent>, windows: Vec<MinuteWindow>, minute_ts: i64) {
    write_all(conn, flush_inner(&shares, &vec![], &windows, minute_ts));
}

#[test]
fn difficulty_decreases_with_larger_hash() {
    let mut easy = [0u8; 32];
    easy[3] = 0x01;
    let mut hard = [0u8; 32];
    hard[7] = 0x01;
    let difficulty = |hash: &[u8; 32]| {
        let (over, under) = difficulty_ratio(hash).unwrap();
        over as f64 / under as f64
    };
    assert!(difficulty(&hard) > difficulty(&easy));
    assert_eq!(difficulty_ratio(&easy), Some((0xffff_0000, 0x1_0000_0000)));
    assert_eq!(difficulty_ratio(&hard), Some((0xffff_0000, 1)));
    assert_eq!(difficulty_ratio(&[0xff; 32]), Some((0xffff_0000, u64::MAX)));
    let mut hardest = [0xff; 32];
    hardest[..8].copy_from_slice(&[0; 8]);
    assert_eq!(difficulty_ratio(&hardest), None);
}

#[test]
fn schema_creates_without_error() {
    let conn = in_memory();
    conn.execute_batch(SCHEMA).unwrap(); // idempotent
}

#[test]
fn flush_inserts_share_and_upserts_epoch_stats() {
    let conn = in_memory();
    flush(&conn, vec![share("bc1qtest", 42.0, [0xab; 32], 1_700_000_000)], vec![], 0);

    let count: i64 = conn.query_row("SELECT COUNT(*) FROM shares", [], |r| r.get(0)).unwrap();
    assert_eq!(count, 1);

    let shares_count: i64 = conn
        .query_row("SELECT shares_count FROM epoch_stats WHERE miner_address = 'bc1qtest'", [], |r| {
            r.get(0)
        })
        .unwrap();
    assert_eq!(shares_count, 1);
}

#[test]
fn best_share_hash_keeps_lowest() {
    let conn = in_memory();
    let high = [0xff; 32];
    let low = {
        let mut h = [0u8; 32];
        h[3] = 0x01;
        h
    };
    flush(
        &conn,
        vec![
            share("addr", 1.0, high, 0),
            share("addr", 100.0, low, 0),
            share("addr", 2.0, [0x88; 32], 0),
        ],
        vec![],
        0,
    );

    let best: Vec<u8> = conn
        .query_row("SELECT best_share_hash FROM epoch_stats WHERE miner_address = 'addr'", [], |r| {
            r.get(0)
        })
        .unwrap();
    assert_eq!(best, low.to_vec());
}

#[test]
fn minute_windows_write_to_minute_hashrates_and_active_minutes() {
    let conn = in_memory();
    flush(&conn, vec![], vec![window("alice", 100.0), window("bob", 50.0)], 1_700_000_000);

    let alice_diff: f64 = conn
        .query_row(
            "SELECT difficulty_sum FROM minute_hashrates WHERE miner_address = 'alice'",
            [],
            |r| r.get(0),
        )
        .unwrap();
    assert!((alice_diff - 100.0).abs() < 1e-9);

    let alice_minutes: i64 = conn
        .query_row("SELECT active_minutes FROM epoch_stats WHERE miner_address = 'alice'", [], |r| {
            r.get(0)
        })
        .unwrap();
    assert_eq!(alice_minutes, 1);
}

#[test]
fn minute_windows_accumulate_across_flushes() {
    let conn = in_memory();
    let ts1 = 1_700_000_000i64;
    let ts2 = ts1 + 60;
    flush(&conn, vec![], vec![window("alice", 100.0)], ts1);
    flush(&conn, vec![], vec![window("alice", 200.0)], ts2);

    let total: f64 = conn
        .query_row(
            "SELECT SUM(difficulty_sum) FROM minute_hashrates WHERE miner_address = 'alice'",
            [],
            |r| r.get(0),
        )
        .unwrap();
    assert!((total - 300.0).abs() < 1e-9);

    let active: i64 = conn
        .query_row("SELECT active_minutes FROM epoch_stats WHERE miner_address = 'alice'", [], |r| {
            r.get(0)
        })
        .unwrap();
    assert_eq!(active, 2);
}

#[test]
fn hashrate_query_returns_correct_value() {
    let conn = in_memory();
    let now = floor_minute(now_secs());

    // Insert two minutes of data: difficulty_sum = 1000.0 each.
    for i in 0..2i64 {
        flush(&conn, vec![], vec![window("alice", 1000.0)], now - i * 60);
    }

    let lookback = 2u64;
    let cutoff = hashrate_cutoff(now_secs(), lookback);
    let diff_sum: f64 = conn.query_row(POOL_DIFFICULTY, (cutoff,), |r| r.get(0)).unwrap();
    let hashrate = diff_sum * 4_294_967_296.0 / (lookback as f64 * 60.0);
    // 2000 * 2^32 / 120 ≈ 71.58 GH/s
    assert!(hashrate > 0.0);

    let mine: f64 = conn.query_row(ADDRESS_DIFFICULTY, ("alice", cutoff), |r| r.get(0)).unwrap();
    assert_eq!(mine, diff_sum);
    let nobody: f64 = conn.query_row(ADDRESS_DIFFICULTY, ("bob", cutoff), |r| r.get(0)).unwrap();
    assert_eq!(nobody, 0.0);
}

#[test]
fn old_minute_hashrates_are_pruned() {
    let conn = in_memory();
    let old_ts = floor_minute(now_secs()) - MINUTE_RETENTION_SECS - 120;
    let current_ts = floor_minute(now_secs());
    // Insert old row manually then trigger prune via flush.
    conn.execute(
        "INSERT INTO minute_hashrates (miner_address, minute_ts, difficulty_sum) VALUES ('alice', ?1, 999.0)",
        (old_ts,),
    )
    .unwrap();
    flush(&conn, vec![], vec![], current_ts);

    let count: i64 = conn
        .query_row(
            "SELECT COUNT(*) FROM minute_hashrates WHERE miner_address = 'alice' AND minute_ts = ?1",
            (old_ts,),
            |r| r.get(0),
        )
        .unwrap();
    assert_eq!(count, 0, "old row should have been pruned");
}

#[test]
fn a_flush_writes_miners_shares_windows_and_prunes() {
    let miners = vec![MinerSeen { address: "m".to_string(), timestamp: 5 }];
    let shares = vec![share("s", 1.5, [7; 32], 9)];
    let windows = vec![window("w", 2.5)];
    let writes = flush_inner(&shares, &miners, &windows, 120);
    assert_eq!(writes.len(), 6);
    assert!(matches!(&writes[0], DbWrite::InsertMiner { address, first_seen: 5 } if address == "m"));
    assert!(matches!(&writes[1], DbWrite::InsertShare { share } if share.timestamp == 9));
    assert!(matches!(
        &writes[2],
        DbWrite::CountShare { address, difficulty_bits, block_hash_be }
            if address == "s" && *difficulty_bits == 1.5f64.to_bits() && *block_hash_be == [7; 32]
    ));
    assert!(matches!(
        &writes[3],
        DbWrite::AddToMinute { address, minute_ts: 120, difficulties }
            if address == "w" && *difficulties == vec![2.5f64.to_bits()]
    ));
    assert!(matches!(&writes[4], DbWrite::CountMinute { address } if address == "w"));
    assert!(matches!(&writes[5], DbWrite::PruneMinutes { cutoff: -86_280 }));
}

#[test]
fn known_miners_keep_their_first_time() {
    let conn = in_memory();
    let miners = vec![
        MinerSeen { address: "m".to_string(), timestamp: 5 },
        MinerSeen { address: "m".to_string(), timestamp: 6 },
    ];
    write_all(&conn, flush_inner(&vec![], &miners, &vec![], 0));
    let seen: i64 =
        conn.query_row("SELECT first_seen FROM miners", [], |r| r.get(0)).unwrap();
    assert_eq!(seen, 5);
}

#[test]
fn windows_group_the_shares_by_address() {
    let mut batch = Batch::new();
    for (address, difficulty) in [("a", 1.0), ("b", 2.0), ("a", 3.0), ("c", 4.0), ("b", 5.0)] {
        let share = share(address, difficulty, [0; 32], 0);
        batch.push_event(DbEvent::Share(share));
    }
    batch.push_event(DbEvent::MinerConnected { address: "a".to_string(), timestamp: 1 });
    let windows: Vec<(String, Vec<f64>)> = batch
        .windows
        .iter()
        .map(|w| (w.address.clone(), w.difficulties.iter().map(|b| f64::from_bits(*b)).collect()))
        .collect();
    assert_eq!(
        windows,
        vec![
            ("a".to_string(), vec![1.0, 3.0]),
            ("b".to_string(), vec![2.0, 5.0]),
            ("c".to_string(), vec![4.0]),
        ]
    );
    assert_eq!(batch.shares.len(), 5);
    assert_eq!(batch.miners.len(), 1);
}

#[test]
fn a_failed_flush_keeps_the_batch() {
    let mut batch = Batch::new();
    assert!(batch.flush(100).is_none());
    batch.push_event(DbEvent::Share(share("a", 1.0, [0; 32], 0)));
    let writes = batch.flush(119).unwrap();
    assert!(matches!(&writes[2], DbWrite::AddToMinute { minute_ts: 60, .. }));
    batch.after_flush(false);
    assert_eq!(batch.shares.len(), 1);
    assert!(!batch.is_empty());
    batch.after_flush(true);
    assert!(batch.is_empty());
    assert!(batch.flush(119).is_none());
}

#[test]
fn the_worker_flushes_by_time_by_size_and_at_the_end() {
    let mut batch = Batch::new();
    let quiet = |elapsed_secs: u64| QueueEvent::Drained { elapsed_secs };
    assert_eq!(batch.on_queue(quiet(59)), WorkerAction::Wait);
    assert_eq!(batch.on_queue(quiet(60)), WorkerAction::Flush);
    for i in 0..1000 {
        assert_eq!(batch.on_queue(quiet(0)), WorkerAction::Wait);
        let event = DbEvent::Share(share("a", i as f64, [0; 32], 0));
        assert_eq!(batch.on_queue(QueueEvent::Received { event }), WorkerAction::Receive);
    }
    assert_eq!(batch.on_queue(quiet(0)), WorkerAction::Flush);
    assert_eq!(batch.on_queue(QueueEvent::Disconnected), WorkerAction::FlushAndStop);
    assert_eq!(batch.shares.len(), 1000);
}

#[test]
fn better_hashes_are_lower() {
    assert_eq!(better_share_hash(&None, &[9; 32]), [9; 32]);
    assert_eq!(better_share_hash(&Some([1; 32]), &[9; 32]), [1; 32]);
    assert_eq!(better_share_hash(&Some([9; 32]), &[1; 32]), [1; 32]);
    let mut last = [1; 32];
    last[31] = 0;
    assert_eq!(better_share_hash(&Some([1; 32]), &last), last);
    assert_eq!(better_share_hash(&Some(last), &[1; 32]), last);
}

#[test]
fn minutes_start_at_multiples_of_sixty() {
    assert_eq!(floor_minute(0), 0);
    assert_eq!(floor_minute(59), 0);
    assert_eq!(floor_minute(60), 60);
    assert_eq!(floor_minute(1_700_000_039), 1_699_999_980);
    assert_eq!(floor_minute(-1), 0);
    assert_eq!(floor_minute(-60), -60);
    assert_eq!(floor_minute(-61), -60);
    assert_eq!(floor_minute(i64::MIN), -9_223_372_036_854_775_800);
}

#[test]
fn clocks_before_the_epoch_read_zero() {
    assert_eq!(epoch_seconds(None), 0);
    assert_eq!(epoch_seconds(Some(1_700_000_000)), 1_700_000_000);
    assert_eq!(epoch_seconds(Some(u64::MAX)), -1);
    assert!(now_secs() > 1_600_000_000);
    assert_eq!(hashrate_cutoff(1000, 10), 400);
}

#[test]
fn flushes_count_every_share_of_an_address() {
    let conn = in_memory();
    let first = vec![share("a", 1.0, [5; 32], 0), share("b", 1.0, [1; 32], 0)];
    flush(&conn, first, vec![], 0);
    let stats = stats_of(&conn, "a");
    assert_eq!((stats.shares_count, stats.best_share_hash), (1, Some([5; 32])));
    let second = vec![
        share("a", 1.0, [9; 32], 0),
        share("a", 1.0, [3; 32], 0),
        share("b", 1.0, [2; 32], 0),
        share("a", 1.0, [4; 32], 0),
    ];
    flush(&conn, second, vec![], 0);
    let stats = stats_of(&conn, "a");
    assert_eq!((stats.shares_count, stats.best_share_hash), (4, Some([3; 32])));
    let stats = stats_of(&conn, "b");
    assert_eq!((stats.shares_count, stats.best_share_hash), (2, Some([1; 32])));
    let stats = stats_of(&conn, "c");
    assert_eq!((stats.shares_count, stats.best_share_hash), (0, None));
}

#[test]
fn every_miner_event_is_written_once() {
    let mut batch = Batch::new();
    let times = [3, 1, 2];
    for timestamp in times {
        batch.push_event(DbEvent::MinerConnected { address: format!("m{timestamp}"), timestamp });
        batch.push_event(DbEvent::Share(share("s", 1.0, [0; 32], 0)));
    }
    let seen: Vec<i64> = batch
        .flush(0)
        .unwrap()
        .iter()
        .filter_map(|w| match w {
            DbWrite::InsertMiner { first_seen, .. } => Some(*first_seen),
            _ => None,
        })
        .collect();
    assert_eq!(seen, times);
    batch.after_flush(true);
    assert!(batch.flush(0).is_none());
}

#[test]
fn numbers_are_compared_from_their_high_end() {
    let (mut low, mut high) = ([0xff; 32], [0; 32]);
    low[31] = 0;
    high[31] = 1;
    assert!(at_most(&low, &high));
    assert!(!at_most(&high, &low));
    assert!(at_most(&low, &low));
    assert_eq!(backwards(&high)[0], 1);
    assert_eq!(backwards(&backwards(&low)), low);
}
