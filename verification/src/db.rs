//! Bookkeeping of shares: what is batched, when it is written, and what is written.
//!
//! Events are batched and flushed every 60 seconds. Hashrate is tracked in
//! 1-minute windows. Difficulties are floating-point numbers, which the library
//! carries as their bits.
use vstd::prelude::*;

verus! {

/// How often a batch is flushed, in seconds.
pub const FLUSH_INTERVAL_SECS: u64 = 60;

/// A batch with this many shares is flushed at once.
pub const SHARE_BATCH_LIMIT: usize = 1000;

/// How long minute windows are kept: 24 hours, in seconds.
pub const MINUTE_RETENTION_SECS: i64 = 86_400;

/// The numerator of a difficulty: the upper 64 bits of the easiest target.
pub const PDIFF1_UPPER: u64 = 0xFFFF_0000;

// ── Statements ────────────────────────────────────────────────────────────────

/// Settings of every connection: one writer, and readers alongside it.
pub const CONNECTION_PRAGMAS: &'static str = "PRAGMA journal_mode=WAL; PRAGMA synchronous=NORMAL;";

/// The tables and their indexes.
pub const SCHEMA: &'static str = "
    CREATE TABLE IF NOT EXISTS miners (
        address    TEXT    PRIMARY KEY,
        first_seen INTEGER NOT NULL
    );

    CREATE TABLE IF NOT EXISTS shares (
        id            INTEGER PRIMARY KEY AUTOINCREMENT,
        miner_address TEXT    NOT NULL,
        difficulty    REAL    NOT NULL,
        block_hash_be BLOB    NOT NULL,
        timestamp     INTEGER NOT NULL
    );

    CREATE INDEX IF NOT EXISTS shares_miner_ts
        ON shares (miner_address, timestamp);

    -- Cumulative stats per miner.
    CREATE TABLE IF NOT EXISTS epoch_stats (
        miner_address    TEXT    PRIMARY KEY,
        shares_count     INTEGER NOT NULL DEFAULT 0,
        active_minutes   INTEGER NOT NULL DEFAULT 0,
        total_difficulty REAL    NOT NULL DEFAULT 0.0,
        best_share_hash  BLOB
    );

    -- 1-minute hashrate time series. Pruned to last 24 h on each flush.
    CREATE TABLE IF NOT EXISTS minute_hashrates (
        miner_address  TEXT    NOT NULL,
        minute_ts      INTEGER NOT NULL,
        difficulty_sum REAL    NOT NULL,
        PRIMARY KEY (miner_address, minute_ts)
    );

    CREATE INDEX IF NOT EXISTS minute_hashrates_ts
        ON minute_hashrates (minute_ts);

    -- Competition registration.
    CREATE TABLE IF NOT EXISTS competition_entries (
        miner_address   TEXT    PRIMARY KEY,
        entry_paid_sats INTEGER NOT NULL,
        entry_timestamp INTEGER NOT NULL,
        ark_address     TEXT    NOT NULL
    );
";

/// Of `DbWrite::InsertMiner`: address, time.
pub const INSERT_MINER: &'static str =
    "INSERT OR IGNORE INTO miners (address, first_seen) VALUES (?1, ?2)";

/// Of `DbWrite::InsertShare`: address, difficulty, hash, time.
pub const INSERT_SHARE: &'static str =
    "INSERT INTO shares (miner_address, difficulty, block_hash_be, timestamp)
     VALUES (?1, ?2, ?3, ?4)";

/// A miner's statistics so far, the count and the best hash: address.
pub const MINER_STATS: &'static str =
    "SELECT shares_count, best_share_hash FROM epoch_stats WHERE miner_address = ?1";

/// Of `DbWrite::CountShare`: address, difficulty, and the count and the best hash with
/// the share counted in.
pub const COUNT_SHARE: &'static str =
    "INSERT INTO epoch_stats (miner_address, shares_count, total_difficulty, best_share_hash)
     VALUES (?1, ?3, ?2, ?4)
     ON CONFLICT(miner_address) DO UPDATE SET
       shares_count     = ?3,
       total_difficulty = total_difficulty + ?2,
       best_share_hash  = ?4";

/// Of `DbWrite::AddToMinute`: address, minute, sum of the difficulties.
pub const ADD_TO_MINUTE: &'static str =
    "INSERT INTO minute_hashrates (miner_address, minute_ts, difficulty_sum)
     VALUES (?1, ?2, ?3)
     ON CONFLICT(miner_address, minute_ts) DO UPDATE SET
       difficulty_sum = difficulty_sum + ?3";

/// Of `DbWrite::CountMinute`: address.
pub const COUNT_MINUTE: &'static str = "INSERT INTO epoch_stats (miner_address, active_minutes)
     VALUES (?1, 1)
     ON CONFLICT(miner_address) DO UPDATE SET
       active_minutes = active_minutes + 1";

/// Of `DbWrite::PruneMinutes`: cutoff.
pub const PRUNE_MINUTES: &'static str = "DELETE FROM minute_hashrates WHERE minute_ts < ?1";

/// The difficulty of a miner's minutes from a cutoff on: address, cutoff.
pub const ADDRESS_DIFFICULTY: &'static str = "SELECT COALESCE(SUM(difficulty_sum), 0.0)
     FROM minute_hashrates
     WHERE miner_address = ?1 AND minute_ts >= ?2";

/// The difficulty of all minutes from a cutoff on: cutoff.
pub const POOL_DIFFICULTY: &'static str = "SELECT COALESCE(SUM(difficulty_sum), 0.0)
     FROM minute_hashrates
     WHERE minute_ts >= ?1";

// ── Events ────────────────────────────────────────────────────────────────────

#[derive(Debug, Clone)]
pub struct ShareEvent {
    pub miner_address: String,
    /// The bits of the difficulty computed from the block hash (pdiff approximation).
    pub difficulty_bits: u64,
    /// Block hash in big-endian byte order (same order as the target).
    pub block_hash_be: [u8; 32],
    /// Unix timestamp (seconds) from the share `ntime` field.
    pub timestamp: i64,
}

#[derive(Debug, Clone)]
pub enum DbEvent {
    Share(ShareEvent),
    MinerConnected { address: String, timestamp: i64 },
}

/// A miner and when it was first seen.
#[derive(Debug, Clone)]
pub struct MinerSeen {
    pub address: String,
    pub timestamp: i64,
}

/// The difficulties of one address since the last flush, in order of arrival.
#[derive(Debug, Clone)]
pub struct MinuteWindow {
    pub address: String,
    pub difficulties: Vec<u64>,
}

/// What waits to be written.
pub struct Batch {
    pub shares: Vec<ShareEvent>,
    pub miners: Vec<MinerSeen>,
    pub windows: Vec<MinuteWindow>,
}

#[verifier::ext_equal]
pub struct ShareView {
    pub miner_address: Seq<char>,
    pub difficulty_bits: u64,
    pub block_hash_be: Seq<u8>,
    pub timestamp: i64,
}

#[verifier::ext_equal]
pub struct MinerView {
    pub address: Seq<char>,
    pub timestamp: i64,
}

#[verifier::ext_equal]
pub struct WindowView {
    pub address: Seq<char>,
    pub difficulties: Seq<u64>,
}

#[verifier::ext_equal]
pub struct BatchView {
    pub shares: Seq<ShareView>,
    pub miners: Seq<MinerView>,
    pub windows: Seq<WindowView>,
}

pub enum EventView {
    Share { share: ShareView },
    MinerConnected { miner: MinerView },
}

impl View for ShareEvent {
    type V = ShareView;

    open spec fn view(&self) -> ShareView {
        ShareView {
            miner_address: self.miner_address@,
            difficulty_bits: self.difficulty_bits,
            block_hash_be: self.block_hash_be@,
            timestamp: self.timestamp,
        }
    }
}

impl View for MinerSeen {
    type V = MinerView;

    open spec fn view(&self) -> MinerView {
        MinerView { address: self.address@, timestamp: self.timestamp }
    }
}

impl View for MinuteWindow {
    type V = WindowView;

    open spec fn view(&self) -> WindowView {
        WindowView { address: self.address@, difficulties: self.difficulties@ }
    }
}

impl View for DbEvent {
    type V = EventView;

    open spec fn view(&self) -> EventView {
        match *self {
            DbEvent::Share(share) => EventView::Share { share: share@ },
            DbEvent::MinerConnected { address, timestamp } => EventView::MinerConnected {
                miner: MinerView { address: address@, timestamp },
            },
        }
    }
}

impl View for Batch {
    type V = BatchView;

    open spec fn view(&self) -> BatchView {
        BatchView {
            shares: share_views(self.shares@),
            miners: miner_views(self.miners@),
            windows: window_views(self.windows@),
        }
    }
}

pub open spec fn share_views(shares: Seq<ShareEvent>) -> Seq<ShareView> {
    shares.map_values(|s: ShareEvent| s@)
}

pub open spec fn miner_views(miners: Seq<MinerSeen>) -> Seq<MinerView> {
    miners.map_values(|m: MinerSeen| m@)
}

pub open spec fn window_views(windows: Seq<MinuteWindow>) -> Seq<WindowView> {
    windows.map_values(|w: MinuteWindow| w@)
}

// ── Batching ──────────────────────────────────────────────────────────────────

/// The difficulties of an address among the shares, in order.
pub open spec fn difficulties_of(shares: Seq<ShareView>, address: Seq<char>) -> Seq<u64>
    decreases shares.len(),
{
    if shares.len() == 0 {
        Seq::empty()
    } else if shares.last().miner_address == address {
        difficulties_of(shares.drop_last(), address).push(shares.last().difficulty_bits)
    } else {
        difficulties_of(shares.drop_last(), address)
    }
}

/// The windows after one more difficulty of an address: its window grows, or a new
/// one is opened behind the others.
pub open spec fn windows_after(
    windows: Seq<WindowView>,
    address: Seq<char>,
    bits: u64,
) -> Seq<WindowView>
    decreases windows.len(),
{
    if windows.len() == 0 {
        seq![WindowView { address, difficulties: seq![bits] }]
    } else if windows[0].address == address {
        seq![
            WindowView { address, difficulties: windows[0].difficulties.push(bits) },
        ] + windows.drop_first()
    } else {
        seq![windows[0]] + windows_after(windows.drop_first(), address, bits)
    }
}

/// The batch after an event.
pub open spec fn batch_after(batch: BatchView, event: EventView) -> BatchView {
    match event {
        EventView::Share { share } => BatchView {
            shares: batch.shares.push(share),
            miners: batch.miners,
            windows: windows_after(batch.windows, share.miner_address, share.difficulty_bits),
        },
        EventView::MinerConnected { miner } => BatchView {
            miners: batch.miners.push(miner),
            ..batch
        },
    }
}

/// Whether the windows are the shares grouped by address: one window for each
/// address that has a share, holding its difficulties in order, and no other.
pub open spec fn grouped(batch: BatchView) -> bool {
    &&& forall|i: int, j: int|
        0 <= i < j < batch.windows.len() ==> (#[trigger] batch.windows[i]).address != (
        #[trigger] batch.windows[j]).address
    &&& forall|i: int|
        0 <= i < batch.windows.len() ==> {
            &&& (#[trigger] batch.windows[i]).difficulties == difficulties_of(
                batch.shares,
                batch.windows[i].address,
            )
            &&& batch.windows[i].difficulties.len() > 0
        }
    &&& forall|k: int|
        0 <= k < batch.shares.len() ==> has_window(
            batch.windows,
            (#[trigger] batch.shares[k]).miner_address,
        )
}

pub open spec fn has_window(windows: Seq<WindowView>, address: Seq<char>) -> bool {
    exists|i: int| 0 <= i < windows.len() && (#[trigger] windows[i]).address == address
}

/// The place of an address's window, or the end.
pub open spec fn is_place_of(windows: Seq<WindowView>, address: Seq<char>, at: int) -> bool {
    &&& 0 <= at <= windows.len()
    &&& forall|i: int| 0 <= i < at ==> (#[trigger] windows[i]).address != address
    &&& at < windows.len() ==> windows[at].address == address
}

proof fn lemma_windows_after(windows: Seq<WindowView>, address: Seq<char>, bits: u64, at: int)
    requires
        is_place_of(windows, address, at),
    ensures
        at < windows.len() ==> windows_after(windows, address, bits) == windows.update(
            at,
            WindowView { address, difficulties: windows[at].difficulties.push(bits) },
        ),
        at == windows.len() ==> windows_after(windows, address, bits) == windows.push(
            WindowView { address, difficulties: seq![bits] },
        ),
    decreases windows.len(),
{
    let result = windows_after(windows, address, bits);
    if windows.len() == 0 {
        assert(result =~= windows.push(WindowView { address, difficulties: seq![bits] }));
    } else if windows[0].address == address {
        assert(at == 0);
        assert(result =~= windows.update(
            0,
            WindowView { address, difficulties: windows[0].difficulties.push(bits) },
        ));
    } else {
        let rest = windows.drop_first();
        assert forall|i: int| 0 <= i < at - 1 implies (#[trigger] rest[i]).address != address by {
            assert(rest[i] == windows[i + 1]);
        }
        lemma_windows_after(rest, address, bits, at - 1);
        if at < windows.len() {
            assert(result =~= windows.update(
                at,
                WindowView { address, difficulties: windows[at].difficulties.push(bits) },
            ));
        } else {
            assert(result =~= windows.push(WindowView { address, difficulties: seq![bits] }));
        }
    }
}

proof fn lemma_place_exists(windows: Seq<WindowView>, address: Seq<char>) -> (at: int)
    ensures
        is_place_of(windows, address, at),
        at < windows.len() <==> has_window(windows, address),
    decreases windows.len(),
{
    if windows.len() == 0 {
        0
    } else if windows[0].address == address {
        0
    } else {
        let rest = windows.drop_first();
        let at = lemma_place_exists(rest, address);
        assert forall|i: int| 0 <= i < at + 1 implies (#[trigger] windows[i]).address
            != address by {
            if i > 0 {
                assert(rest[i - 1] == windows[i]);
            }
        }
        if at + 1 < windows.len() {
            assert(windows[at + 1].address == address);
        } else if has_window(windows, address) {
            let i = choose|i: int|
                0 <= i < windows.len() && (#[trigger] windows[i]).address == address;
            assert(rest[i - 1].address == address);
        }
        at + 1
    }
}

proof fn lemma_no_window_no_shares(shares: Seq<ShareView>, address: Seq<char>)
    requires
        forall|k: int| 0 <= k < shares.len() ==> (#[trigger] shares[k]).miner_address != address,
    ensures
        difficulties_of(shares, address) == Seq::<u64>::empty(),
    decreases shares.len(),
{
    if shares.len() > 0 {
        assert(shares.last() == shares[shares.len() - 1]);
        lemma_no_window_no_shares(shares.drop_last(), address);
    }
}

/// Every event keeps the windows grouped.
pub proof fn events_keep_the_grouping(batch: BatchView, event: EventView)
    requires
        grouped(batch),
    ensures
        grouped(batch_after(batch, event)),
{
    match event {
        EventView::MinerConnected { .. } => {},
        EventView::Share { share } => {
            let after = batch_after(batch, event);
            let address = share.miner_address;
            let bits = share.difficulty_bits;
            let at = lemma_place_exists(batch.windows, address);
            lemma_windows_after(batch.windows, address, bits, at);
            assert(after.shares.drop_last() =~= batch.shares);
            if at == batch.windows.len() {
                assert forall|k: int| 0 <= k < batch.shares.len() implies (
                #[trigger] batch.shares[k]).miner_address != address by {
                    assert(has_window(batch.windows, batch.shares[k].miner_address));
                }
                lemma_no_window_no_shares(batch.shares, address);
                assert(seq![bits] =~= Seq::<u64>::empty().push(bits));
            }
            assert forall|i: int, j: int| 0 <= i < j < after.windows.len() implies (
            #[trigger] after.windows[i]).address != (#[trigger] after.windows[j]).address by {
                if j < batch.windows.len() {
                    assert(batch.windows[i].address != batch.windows[j].address);
                }
            }
            assert forall|i: int| 0 <= i < after.windows.len() implies {
                &&& (#[trigger] after.windows[i]).difficulties == difficulties_of(
                    after.shares,
                    after.windows[i].address,
                )
                &&& after.windows[i].difficulties.len() > 0
            } by {
                if i < batch.windows.len() {
                    assert(batch.windows[i].difficulties == difficulties_of(
                        batch.shares,
                        batch.windows[i].address,
                    ));
                    if i != at {
                        if at < batch.windows.len() {
                            if i < at {
                                assert(batch.windows[i].address != batch.windows[at].address);
                            } else {
                                assert(batch.windows[at].address != batch.windows[i].address);
                            }
                        }
                        assert(after.windows[i] == batch.windows[i]);
                    }
                }
            }
            assert forall|k: int| 0 <= k < after.shares.len() implies has_window(
                after.windows,
                (#[trigger] after.shares[k]).miner_address,
            ) by {
                if k < batch.shares.len() {
                    assert(has_window(batch.windows, batch.shares[k].miner_address));
                    let i = choose|i: int|
                        0 <= i < batch.windows.len() && (#[trigger] batch.windows[i]).address
                            == batch.shares[k].miner_address;
                    assert(after.windows[i].address == batch.shares[k].miner_address);
                } else {
                    assert(after.windows[at].address == address);
                }
            }
        },
    }
}

// ── Writes ────────────────────────────────────────────────────────────────────

/// One write of a flush.
#[derive(Debug, Clone)]
pub enum DbWrite {
    /// A miner, unless it is known.
    InsertMiner { address: String, first_seen: i64 },
    InsertShare { share: ShareEvent },
    /// One more share for the miner's statistics.
    CountShare { address: String, difficulty_bits: u64, block_hash_be: [u8; 32] },
    /// Difficulties to add to the miner's minute.
    AddToMinute { address: String, minute_ts: i64, difficulties: Vec<u64> },
    /// One more active minute for the miner's statistics.
    CountMinute { address: String },
    /// Away with the minutes before `cutoff`.
    PruneMinutes { cutoff: i64 },
}

#[verifier::ext_equal]
pub enum WriteView {
    InsertMiner { miner: MinerView },
    InsertShare { share: ShareView },
    CountShare { address: Seq<char>, difficulty_bits: u64, block_hash_be: Seq<u8> },
    AddToMinute { minute_ts: i64, window: WindowView },
    CountMinute { address: Seq<char> },
    PruneMinutes { cutoff: i64 },
}

impl View for DbWrite {
    type V = WriteView;

    open spec fn view(&self) -> WriteView {
        match *self {
            DbWrite::InsertMiner { address, first_seen } => WriteView::InsertMiner {
                miner: MinerView { address: address@, timestamp: first_seen },
            },
            DbWrite::InsertShare { share } => WriteView::InsertShare { share: share@ },
            DbWrite::CountShare { address, difficulty_bits, block_hash_be } =>
            WriteView::CountShare {
                address: address@,
                difficulty_bits,
                block_hash_be: block_hash_be@,
            },
            DbWrite::AddToMinute { address, minute_ts, difficulties } => WriteView::AddToMinute {
                minute_ts,
                window: WindowView { address: address@, difficulties: difficulties@ },
            },
            DbWrite::CountMinute { address } => WriteView::CountMinute { address: address@ },
            DbWrite::PruneMinutes { cutoff } => WriteView::PruneMinutes { cutoff },
        }
    }
}

pub open spec fn write_views(writes: Seq<DbWrite>) -> Seq<WriteView> {
    writes.map_values(|w: DbWrite| w@)
}

/// The writes of the miners.
pub open spec fn miner_writes(miners: Seq<MinerView>) -> Seq<WriteView> {
    miners.map_values(|m: MinerView| WriteView::InsertMiner { miner: m })
}

/// The writes of one share: the share itself, and its count.
pub open spec fn writes_of_share(share: ShareView) -> Seq<WriteView> {
    seq![
        WriteView::InsertShare { share },
        WriteView::CountShare {
            address: share.miner_address,
            difficulty_bits: share.difficulty_bits,
            block_hash_be: share.block_hash_be,
        },
    ]
}

/// The writes of the shares, in order.
pub open spec fn share_writes(shares: Seq<ShareView>) -> Seq<WriteView>
    decreases shares.len(),
{
    if shares.len() == 0 {
        Seq::empty()
    } else {
        share_writes(shares.drop_last()) + writes_of_share(shares.last())
    }
}

/// The writes of one window: its difficulties, and the active minute.
pub open spec fn writes_of_window(window: WindowView, minute_ts: i64) -> Seq<WriteView> {
    seq![
        WriteView::AddToMinute { minute_ts, window },
        WriteView::CountMinute { address: window.address },
    ]
}

/// The writes of the windows, in order.
pub open spec fn window_writes(windows: Seq<WindowView>, minute_ts: i64) -> Seq<WriteView>
    decreases windows.len(),
{
    if windows.len() == 0 {
        Seq::empty()
    } else {
        window_writes(windows.drop_last(), minute_ts) + writes_of_window(windows.last(), minute_ts)
    }
}

/// All writes of a flush, in order: miners, shares, windows, and the pruning of
/// minutes older than 24 hours.
pub open spec fn flush_writes(batch: BatchView, minute_ts: i64) -> Seq<WriteView> {
    miner_writes(batch.miners) + share_writes(batch.shares) + window_writes(
        batch.windows,
        minute_ts,
    ) + seq![WriteView::PruneMinutes { cutoff: (minute_ts - MINUTE_RETENTION_SECS) as i64 }]
}

/// Whether nothing waits.
pub open spec fn is_empty_batch(batch: BatchView) -> bool {
    batch.shares.len() == 0 && batch.miners.len() == 0 && batch.windows.len() == 0
}

/// An empty batch.
pub open spec fn empty_batch() -> BatchView {
    BatchView { shares: Seq::empty(), miners: Seq::empty(), windows: Seq::empty() }
}

/// A flush prunes last, and what it prunes is more than 24 hours before its minute:
/// its own windows survive it.
pub proof fn pruning_spares_the_current_minute(batch: BatchView, minute_ts: i64)
    requires
        minute_ts - MINUTE_RETENTION_SECS >= i64::MIN,
    ensures
        flush_writes(batch, minute_ts).last() matches WriteView::PruneMinutes { cutoff } && cutoff
            + 24 * 3600 == minute_ts,
{
}

proof fn lemma_share_writes(shares: Seq<ShareView>)
    ensures
        share_writes(shares).len() == 2 * shares.len(),
        forall|i: int|
            0 <= i < shares.len() ==> share_writes(shares).subrange(2 * i, 2 * i + 2)
                == writes_of_share(#[trigger] shares[i]),
    decreases shares.len(),
{
    if shares.len() > 0 {
        let before = shares.drop_last();
        lemma_share_writes(before);
        assert forall|i: int| 0 <= i < shares.len() implies share_writes(shares).subrange(
            2 * i,
            2 * i + 2,
        ) == writes_of_share(#[trigger] shares[i]) by {
            if i < before.len() {
                assert(before[i] == shares[i]);
                assert(share_writes(shares).subrange(2 * i, 2 * i + 2) =~= share_writes(
                    before,
                ).subrange(2 * i, 2 * i + 2));
            } else {
                assert(share_writes(shares).subrange(2 * i, 2 * i + 2) =~= writes_of_share(
                    shares[i],
                ));
            }
        }
    }
}

proof fn lemma_window_writes(windows: Seq<WindowView>, minute_ts: i64)
    ensures
        window_writes(windows, minute_ts).len() == 2 * windows.len(),
        forall|i: int|
            0 <= i < windows.len() ==> window_writes(windows, minute_ts).subrange(2 * i, 2 * i + 2)
                == writes_of_window(#[trigger] windows[i], minute_ts),
    decreases windows.len(),
{
    if windows.len() > 0 {
        let before = windows.drop_last();
        lemma_window_writes(before, minute_ts);
        assert forall|i: int| 0 <= i < windows.len() implies window_writes(
            windows,
            minute_ts,
        ).subrange(2 * i, 2 * i + 2) == writes_of_window(#[trigger] windows[i], minute_ts) by {
            let all = window_writes(windows, minute_ts);
            if i < before.len() {
                assert(before[i] == windows[i]);
                assert(all.subrange(2 * i, 2 * i + 2) =~= window_writes(
                    before,
                    minute_ts,
                ).subrange(2 * i, 2 * i + 2));
            } else {
                assert(all.subrange(2 * i, 2 * i + 2) =~= writes_of_window(
                    windows[i],
                    minute_ts,
                ));
            }
        }
    }
}

/// A flush writes everything that waits, each thing once and in its order, and
/// nothing else but the pruning: the miners, the two writes of each share, the two
/// writes of each window.
pub proof fn flush_writes_everything_once(batch: BatchView, minute_ts: i64)
    ensures
        ({
            let writes = flush_writes(batch, minute_ts);
            let shares_at = batch.miners.len() as int;
            let windows_at = shares_at + 2 * batch.shares.len();
            &&& writes.len() == windows_at + 2 * batch.windows.len() + 1
            &&& forall|i: int|
                0 <= i < batch.miners.len() ==> writes[i] == (WriteView::InsertMiner {
                    miner: #[trigger] batch.miners[i],
                })
            &&& forall|i: int|
                0 <= i < batch.shares.len() ==> writes.subrange(
                    shares_at + 2 * i,
                    shares_at + 2 * i + 2,
                ) == writes_of_share(#[trigger] batch.shares[i])
            &&& forall|i: int|
                0 <= i < batch.windows.len() ==> writes.subrange(
                    windows_at + 2 * i,
                    windows_at + 2 * i + 2,
                ) == writes_of_window(#[trigger] batch.windows[i], minute_ts)
        }),
{
    let writes = flush_writes(batch, minute_ts);
    let shares_at = batch.miners.len() as int;
    let windows_at = shares_at + 2 * batch.shares.len();
    lemma_share_writes(batch.shares);
    lemma_window_writes(batch.windows, minute_ts);
    assert forall|i: int| 0 <= i < batch.shares.len() implies writes.subrange(
        shares_at + 2 * i,
        shares_at + 2 * i + 2,
    ) == writes_of_share(#[trigger] batch.shares[i]) by {
        assert(writes.subrange(shares_at + 2 * i, shares_at + 2 * i + 2) =~= share_writes(
            batch.shares,
        ).subrange(2 * i, 2 * i + 2));
    }
    assert forall|i: int| 0 <= i < batch.windows.len() implies writes.subrange(
        windows_at + 2 * i,
        windows_at + 2 * i + 2,
    ) == writes_of_window(#[trigger] batch.windows[i], minute_ts) by {
        assert(writes.subrange(windows_at + 2 * i, windows_at + 2 * i + 2) =~= window_writes(
            batch.windows,
            minute_ts,
        ).subrange(2 * i, 2 * i + 2));
    }
}

impl Batch {
    /// Nothing waits.
    pub fn new() -> (batch: Self)
        ensures
            batch@ == empty_batch(),
            grouped(batch@),
    {
        let batch: Self = Self { shares: Vec::new(), miners: Vec::new(), windows: Vec::new() };
        assert(batch@ =~= empty_batch());
        batch
    }

    fn add_to_window(&mut self, address: &String, bits: u64)
        ensures
            final(self).shares == old(self).shares,
            final(self).miners == old(self).miners,
            window_views(final(self).windows@) == windows_after(
                window_views(old(self).windows@),
                address@,
                bits,
            ),
    {
        let ghost before = window_views(self.windows@);
        let mut at: usize = 0;
        while at < self.windows.len() && self.windows[at].address != *address
            invariant
                at <= self.windows@.len(),
                before == window_views(self.windows@),
                *self == *old(self),
                forall|i: int| 0 <= i < at ==> (#[trigger] before[i]).address != address@,
            decreases self.windows@.len() - at,
        {
            assert(before[at as int].address == self.windows@[at as int].address@);
            at = at + 1;
        }
        proof {
            if at < self.windows@.len() {
                assert(before[at as int].address == self.windows@[at as int].address@);
            }
            lemma_windows_after(before, address@, bits, at as int);
        }
        if at < self.windows.len() {
            self.windows[at].difficulties.push(bits);
            proof {
                assert(window_views(self.windows@) =~= before.update(
                    at as int,
                    WindowView {
                        address: address@,
                        difficulties: before[at as int].difficulties.push(bits),
                    },
                ));
            }
        } else {
            let mut difficulties: Vec<u64> = Vec::new();
            difficulties.push(bits);
            let ghost fresh = difficulties@;
            assert(fresh =~= seq![bits]);
            self.windows.push(MinuteWindow { address: address.clone(), difficulties });
            assert(window_views(self.windows@) =~= before.push(
                WindowView { address: address@, difficulties: seq![bits] },
            ));
        }
    }

    /// Takes in an event.
    pub fn push_event(&mut self, event: DbEvent)
        ensures
            final(self)@ == batch_after(old(self)@, event@),
            grouped(old(self)@) ==> grouped(final(self)@),
    {
        proof {
            if grouped(self@) {
                events_keep_the_grouping(self@, event@);
            }
        }
        match event {
            DbEvent::Share(share) => {
                let ghost before = share_views(self.shares@);
                self.add_to_window(&share.miner_address, share.difficulty_bits);
                self.shares.push(share);
                assert(share_views(self.shares@) =~= before.push(share@));
            },
            DbEvent::MinerConnected { address, timestamp } => {
                let ghost before = miner_views(self.miners@);
                let miner: MinerSeen = MinerSeen { address, timestamp };
                let ghost seen = miner@;
                self.miners.push(miner);
                assert(miner_views(self.miners@) =~= before.push(seen));
            },
        }
    }

    /// Whether nothing waits.
    pub fn is_empty(&self) -> (empty: bool)
        ensures
            empty == is_empty_batch(self@),
    {
        self.shares.is_empty() && self.miners.is_empty() && self.windows.is_empty()
    }

    /// The writes of a flush at `now`, or none where nothing waits. The minute of
    /// the windows is the one that `now` lies in.
    pub fn flush(&self, now: i64) -> (plan: Option<Vec<DbWrite>>)
        requires
            !is_empty_batch(self@) ==> minute_of(now) - MINUTE_RETENTION_SECS >= i64::MIN,
        ensures
            match plan {
                Some(writes) => !is_empty_batch(self@) && write_views(writes@) == flush_writes(
                    self@,
                    minute_of(now) as i64,
                ),
                None => is_empty_batch(self@),
            },
    {
        if self.is_empty() {
            None
        } else {
            Some(flush_inner(&self.shares, &self.miners, &self.windows, floor_minute(now)))
        }
    }

    /// The flush is over: what waited is dropped if it was written, and waits on if
    /// it was not.
    pub fn after_flush(&mut self, written: bool)
        ensures
            final(self)@ == (if written {
                empty_batch()
            } else {
                old(self)@
            }),
    {
        if written {
            self.shares.clear();
            self.miners.clear();
            self.windows.clear();
            assert(self@ =~= empty_batch());
        }
    }

    /// Decides what the worker does after an event of its queue.
    pub fn on_queue(&mut self, event: QueueEvent) -> (action: WorkerAction)
        ensures
            final(self)@ == (match event {
                QueueEvent::Received { event } => batch_after(old(self)@, event@),
                _ => old(self)@,
            }),
            grouped(old(self)@) ==> grouped(final(self)@),
            action == match event {
                QueueEvent::Received { .. } => WorkerAction::Receive,
                QueueEvent::Drained { elapsed_secs } => if elapsed_secs >= FLUSH_INTERVAL_SECS
                    || old(self)@.shares.len() >= SHARE_BATCH_LIMIT {
                    WorkerAction::Flush
                } else {
                    WorkerAction::Wait
                },
                QueueEvent::Disconnected => WorkerAction::FlushAndStop,
            },
            action == WorkerAction::Flush <==> (event matches QueueEvent::Drained { elapsed_secs }
                && (elapsed_secs >= 60 || old(self).shares@.len() >= 1000)),
    {
        match event {
            QueueEvent::Received { event } => {
                self.push_event(event);
                WorkerAction::Receive
            },
            QueueEvent::Drained { elapsed_secs } => if elapsed_secs >= FLUSH_INTERVAL_SECS
                || self.shares.len() >= SHARE_BATCH_LIMIT {
                WorkerAction::Flush
            } else {
                WorkerAction::Wait
            },
            QueueEvent::Disconnected => WorkerAction::FlushAndStop,
        }
    }
}

/// What the worker's queue gives.
#[derive(Debug, Clone)]
pub enum QueueEvent {
    Received { event: DbEvent },
    /// The queue is empty; so many whole seconds since the last flush.
    Drained { elapsed_secs: u64 },
    /// Nobody sends any more.
    Disconnected,
}

/// What the worker does next.
#[derive(Debug, Clone, Copy, PartialEq, Eq, Structural)]
pub enum WorkerAction {
    /// Take what else is in the queue.
    Receive,
    /// Wait a second for the queue.
    Wait,
    /// Flush, then wait.
    Flush,
    /// Flush for the last time.
    FlushAndStop,
}

fn copy_share(share: &ShareEvent) -> (copy: ShareEvent)
    ensures
        copy@ == share@,
{
    ShareEvent {
        miner_address: share.miner_address.clone(),
        difficulty_bits: share.difficulty_bits,
        block_hash_be: share.block_hash_be,
        timestamp: share.timestamp,
    }
}

fn copy_bits(bits: &Vec<u64>) -> (copy: Vec<u64>)
    ensures
        copy@ == bits@,
{
    vstd::slice::slice_to_vec(bits.as_slice())
}

/// The writes of a flush, in order.
pub fn flush_inner(
    shares: &Vec<ShareEvent>,
    miners: &Vec<MinerSeen>,
    windows: &Vec<MinuteWindow>,
    minute_ts: i64,
) -> (writes: Vec<DbWrite>)
    requires
        minute_ts - MINUTE_RETENTION_SECS >= i64::MIN,
    ensures
        write_views(writes@) == flush_writes(
            BatchView {
                shares: share_views(shares@),
                miners: miner_views(miners@),
                windows: window_views(windows@),
            },
            minute_ts,
        ),
{
    let ghost share_all = share_views(shares@);
    let ghost miner_all = miner_views(miners@);
    let ghost window_all = window_views(windows@);
    let mut writes: Vec<DbWrite> = Vec::new();
    let mut m: usize = 0;
    while m < miners.len()
        invariant
            m <= miners@.len(),
            miner_all == miner_views(miners@),
            write_views(writes@) =~= miner_writes(miner_all.take(m as int)),
        decreases miners@.len() - m,
    {
        let ghost before = write_views(writes@);
        writes.push(
            DbWrite::InsertMiner {
                address: miners[m].address.clone(),
                first_seen: miners[m].timestamp,
            },
        );
        proof {
            assert(miner_all[m as int] == miners@[m as int]@);
            let write = WriteView::InsertMiner { miner: miner_all[m as int] };
            assert(write_views(writes@) =~= before.push(write));
            assert(miner_writes(miner_all.take(m + 1)) =~= before.push(write));
        }
        m = m + 1;
    }
    assert(miner_all.take(miner_all.len() as int) =~= miner_all);
    let ghost first = miner_writes(miner_all);
    let mut k: usize = 0;
    assert(first + share_writes(share_all.take(0)) =~= first);
    while k < shares.len()
        invariant
            k <= shares@.len(),
            share_all == share_views(shares@),
            write_views(writes@) == first + share_writes(share_all.take(k as int)),
        decreases shares@.len() - k,
    {
        let ghost before = write_views(writes@);
        writes.push(DbWrite::InsertShare { share: copy_share(&shares[k]) });
        writes.push(
            DbWrite::CountShare {
                address: shares[k].miner_address.clone(),
                difficulty_bits: shares[k].difficulty_bits,
                block_hash_be: shares[k].block_hash_be,
            },
        );
        proof {
            let share = share_all[k as int];
            assert(share == shares@[k as int]@);
            assert(share_all.take(k + 1).drop_last() =~= share_all.take(k as int));
            assert(write_views(writes@) =~= before + writes_of_share(share));
            assert(first + share_writes(share_all.take(k as int)) + writes_of_share(share) =~= first
                + (share_writes(share_all.take(k as int)) + writes_of_share(share)));
        }
        k = k + 1;
    }
    assert(share_all.take(share_all.len() as int) =~= share_all);
    let ghost second = first + share_writes(share_all);
    let mut w: usize = 0;
    assert(second + window_writes(window_all.take(0), minute_ts) =~= second);
    while w < windows.len()
        invariant
            w <= windows@.len(),
            window_all == window_views(windows@),
            write_views(writes@) == second + window_writes(window_all.take(w as int), minute_ts),
        decreases windows@.len() - w,
    {
        let ghost before = write_views(writes@);
        writes.push(
            DbWrite::AddToMinute {
                address: windows[w].address.clone(),
                minute_ts,
                difficulties: copy_bits(&windows[w].difficulties),
            },
        );
        writes.push(DbWrite::CountMinute { address: windows[w].address.clone() });
        proof {
            let window = window_all[w as int];
            assert(window == windows@[w as int]@);
            assert(window_all.take(w + 1).drop_last() =~= window_all.take(w as int));
            assert(write_views(writes@) =~= before + writes_of_window(window, minute_ts));
            assert(second + window_writes(window_all.take(w as int), minute_ts) + writes_of_window(
                window,
                minute_ts,
            ) =~= second + (window_writes(window_all.take(w as int), minute_ts) + writes_of_window(
                window,
                minute_ts,
            )));
        }
        w = w + 1;
    }
    assert(window_all.take(window_all.len() as int) =~= window_all);
    let ghost third = write_views(writes@);
    writes.push(DbWrite::PruneMinutes { cutoff: minute_ts - MINUTE_RETENTION_SECS });
    assert(write_views(writes@) =~= third + seq![
        WriteView::PruneMinutes { cutoff: (minute_ts - MINUTE_RETENTION_SECS) as i64 },
    ]);
    writes
}

/// What waits after a run of events and flushes.
pub enum BatchStep {
    Event { event: EventView },
    Flushed { written: bool },
}

/// The batch after a run of steps.
pub open spec fn batch_after_all(steps: Seq<BatchStep>) -> BatchView
    decreases steps.len(),
{
    if steps.len() == 0 {
        empty_batch()
    } else {
        let before = batch_after_all(steps.drop_last());
        match steps.last() {
            BatchStep::Event { event } => batch_after(before, event),
            BatchStep::Flushed { written } => if written {
                empty_batch()
            } else {
                before
            },
        }
    }
}

/// The shares among the steps since the last flush that was written.
pub open spec fn unwritten_shares(steps: Seq<BatchStep>) -> Seq<ShareView>
    decreases steps.len(),
{
    if steps.len() == 0 {
        Seq::empty()
    } else {
        let before = unwritten_shares(steps.drop_last());
        match steps.last() {
            BatchStep::Event { event: EventView::Share { share } } => before.push(share),
            BatchStep::Event { .. } => before,
            BatchStep::Flushed { written } => if written {
                Seq::empty()
            } else {
                before
            },
        }
    }
}

/// No share is lost: whatever the run of events and flushes, exactly the shares
/// since the last flush that was written wait, in order, and their windows are
/// grouped.
pub proof fn no_share_is_lost(steps: Seq<BatchStep>)
    ensures
        batch_after_all(steps).shares == unwritten_shares(steps),
        grouped(batch_after_all(steps)),
    decreases steps.len(),
{
    if steps.len() > 0 {
        no_share_is_lost(steps.drop_last());
        match steps.last() {
            BatchStep::Event { event } => {
                events_keep_the_grouping(batch_after_all(steps.drop_last()), event);
            },
            BatchStep::Flushed { .. } => {},
        }
    }
}

/// The miners among the steps since the last flush that was written.
pub open spec fn unwritten_miners(steps: Seq<BatchStep>) -> Seq<MinerView>
    decreases steps.len(),
{
    if steps.len() == 0 {
        Seq::empty()
    } else {
        let before = unwritten_miners(steps.drop_last());
        match steps.last() {
            BatchStep::Event { event: EventView::MinerConnected { miner } } => before.push(miner),
            BatchStep::Event { .. } => before,
            BatchStep::Flushed { written } => if written {
                Seq::empty()
            } else {
                before
            },
        }
    }
}

/// No miner is lost: whatever the run of events and flushes, exactly the miners
/// since the last flush that was written wait, in order.
pub proof fn no_miner_is_lost(steps: Seq<BatchStep>)
    ensures
        batch_after_all(steps).miners == unwritten_miners(steps),
    decreases steps.len(),
{
    if steps.len() > 0 {
        no_miner_is_lost(steps.drop_last());
    }
}

// ── What the writes say ───────────────────────────────────────────────────────

/// An event goes into the batch behind what waits there, and nothing else changes: a
/// share among the shares, a miner among the miners.
pub proof fn an_event_waits_behind_the_others(batch: BatchView, share: ShareView, miner: MinerView)
    ensures
        batch_after(batch, EventView::Share { share }).shares == batch.shares.push(share),
        batch_after(batch, EventView::Share { share }).miners == batch.miners,
        batch_after(batch, EventView::MinerConnected { miner }).miners == batch.miners.push(miner),
        batch_after(batch, EventView::MinerConnected { miner }).shares == batch.shares,
        batch_after(batch, EventView::MinerConnected { miner }).windows == batch.windows,
{
}

/// Nothing waits exactly where there is no share, no miner and no window; and that is what
/// is left of a batch that was written.
pub proof fn an_empty_batch_is_empty(batch: BatchView)
    ensures
        is_empty_batch(batch) <==> batch.shares.len() + batch.miners.len() + batch.windows.len()
            == 0,
        empty_batch().shares.len() + empty_batch().miners.len() + empty_batch().windows.len() == 0,
{
}

/// What waits is seen as it is: every share, every miner and every window in its place and
/// with all its fields; so is every event.
pub proof fn batches_are_seen_as_they_are(
    batch: Batch,
    share: ShareEvent,
    miner: MinerSeen,
    window: MinuteWindow,
    i: int,
)
    ensures
        batch@.shares.len() == batch.shares@.len() && batch@.miners.len() == batch.miners@.len()
            && batch@.windows.len() == batch.windows@.len(),
        share_views(batch.shares@) == batch@.shares && miner_views(batch.miners@) == batch@.miners
            && window_views(batch.windows@) == batch@.windows,
        0 <= i < batch.shares@.len() ==> batch@.shares[i] == batch.shares@[i]@,
        0 <= i < batch.miners@.len() ==> batch@.miners[i] == batch.miners@[i]@,
        0 <= i < batch.windows@.len() ==> batch@.windows[i] == batch.windows@[i]@,
        share@.miner_address == share.miner_address@ && share@.difficulty_bits
            == share.difficulty_bits && share@.block_hash_be == share.block_hash_be@
            && share@.timestamp == share.timestamp,
        miner@.address == miner.address@ && miner@.timestamp == miner.timestamp,
        window@.address == window.address@ && window@.difficulties == window.difficulties@,
        (DbEvent::Share(share))@ == (EventView::Share { share: share@ }),
        (DbEvent::MinerConnected { address: miner.address, timestamp: miner.timestamp })@ == (
        EventView::MinerConnected { miner: miner@ }),
{
}

/// What is written is seen as it is: every write in its place and with all its fields.
pub proof fn writes_are_seen_as_they_are(writes: Seq<DbWrite>, i: int)
    ensures
        write_views(writes).len() == writes.len(),
        0 <= i < writes.len() ==> match (writes[i], write_views(writes)[i]) {
            (
                DbWrite::InsertMiner { address, first_seen },
                WriteView::InsertMiner { miner },
            ) => miner.address == address@ && miner.timestamp == first_seen,
            (DbWrite::InsertShare { share }, WriteView::InsertShare { share: seen }) => seen
                == share@,
            (
                DbWrite::CountShare { address, difficulty_bits, block_hash_be },
                WriteView::CountShare { address: a, difficulty_bits: d, block_hash_be: h },
            ) => a == address@ && d == difficulty_bits && h == block_hash_be@,
            (
                DbWrite::AddToMinute { address, minute_ts, difficulties },
                WriteView::AddToMinute { minute_ts: m, window },
            ) => m == minute_ts && window.address == address@ && window.difficulties
                == difficulties@,
            (DbWrite::CountMinute { address }, WriteView::CountMinute { address: a }) => a
                == address@,
            (DbWrite::PruneMinutes { cutoff }, WriteView::PruneMinutes { cutoff: c }) => c
                == cutoff,
            _ => false,
        },
{
}

/// The difficulties of an address are those of its shares, each once and in their order;
/// so are its hashes.
pub proof fn an_address_has_all_its_shares(shares: Seq<ShareView>, address: Seq<char>)
    ensures
        difficulties_of(shares, address) == shares.filter(
            |s: ShareView| s.miner_address == address,
        ).map_values(|s: ShareView| s.difficulty_bits),
        hashes_of(shares, address) == shares.filter(
            |s: ShareView| s.miner_address == address,
        ).map_values(|s: ShareView| s.block_hash_be),
    decreases shares.len(),
{
    reveal(Seq::filter);
    let own = |s: ShareView| s.miner_address == address;
    let bits = |s: ShareView| s.difficulty_bits;
    let hash = |s: ShareView| s.block_hash_be;
    if shares.len() == 0 {
        assert(difficulties_of(shares, address) =~= shares.filter(own).map_values(bits));
        assert(hashes_of(shares, address) =~= shares.filter(own).map_values(hash));
    } else {
        let fewer = shares.drop_last();
        an_address_has_all_its_shares(fewer, address);
        if own(shares.last()) {
            assert(shares.filter(own) == fewer.filter(own).push(shares.last()));
        } else {
            assert(shares.filter(own) == fewer.filter(own));
        }
        assert(difficulties_of(shares, address) =~= shares.filter(own).map_values(bits));
        assert(hashes_of(shares, address) =~= shares.filter(own).map_values(hash));
    }
}

/// What a flush writes, one thing after the other: each miner as it was seen; each share
/// as it is, and its count for its own miner, with its difficulty and its hash; for each
/// window all its difficulties to its address's minute, and the minute's count; and at the
/// end the pruning of the minutes of more than 24 hours before.
pub proof fn flush_writes_are_what_waits(batch: BatchView, minute_ts: i64)
    requires
        minute_ts - 86_400 >= i64::MIN,
    ensures
        ({
            let writes = flush_writes(batch, minute_ts);
            let a = batch.miners.len() as int;
            let b = a + 2 * batch.shares.len();
            let c = b + 2 * batch.windows.len();
            &&& writes.len() == c + 1
            &&& forall|i: int|
                0 <= i < batch.miners.len() ==> writes[i] == (WriteView::InsertMiner {
                    miner: #[trigger] batch.miners[i],
                })
            &&& forall|i: int|
                0 <= i < batch.shares.len() ==> writes[a + 2 * i] == (WriteView::InsertShare {
                    share: #[trigger] batch.shares[i],
                }) && writes[a + 2 * i + 1] == (WriteView::CountShare {
                    address: batch.shares[i].miner_address,
                    difficulty_bits: batch.shares[i].difficulty_bits,
                    block_hash_be: batch.shares[i].block_hash_be,
                })
            &&& forall|i: int|
                0 <= i < batch.windows.len() ==> writes[b + 2 * i] == (WriteView::AddToMinute {
                    minute_ts,
                    window: #[trigger] batch.windows[i],
                }) && writes[b + 2 * i + 1] == (WriteView::CountMinute {
                    address: batch.windows[i].address,
                })
            &&& writes[c] matches WriteView::PruneMinutes { cutoff } && cutoff == minute_ts - 86_400
        }),
{
    let writes = flush_writes(batch, minute_ts);
    let a = batch.miners.len() as int;
    let b = a + 2 * batch.shares.len();
    flush_writes_everything_once(batch, minute_ts);
    assert forall|i: int| 0 <= i < batch.shares.len() implies writes[a + 2 * i]
        == (WriteView::InsertShare { share: #[trigger] batch.shares[i] }) && writes[a + 2 * i + 1]
        == (WriteView::CountShare {
        address: batch.shares[i].miner_address,
        difficulty_bits: batch.shares[i].difficulty_bits,
        block_hash_be: batch.shares[i].block_hash_be,
    }) by {
        let pair = writes.subrange(a + 2 * i, a + 2 * i + 2);
        assert(pair == writes_of_share(batch.shares[i]));
        assert(pair[0] == writes[a + 2 * i]);
        assert(pair[1] == writes[a + 2 * i + 1]);
    }
    assert forall|i: int| 0 <= i < batch.windows.len() implies writes[b + 2 * i]
        == (WriteView::AddToMinute { minute_ts, window: #[trigger] batch.windows[i] }) && writes[b
        + 2 * i + 1] == (WriteView::CountMinute { address: batch.windows[i].address }) by {
        let pair = writes.subrange(b + 2 * i, b + 2 * i + 2);
        assert(pair == writes_of_window(batch.windows[i], minute_ts));
        assert(pair[0] == writes[b + 2 * i]);
        assert(pair[1] == writes[b + 2 * i + 1]);
    }
}

/// After a flush of a grouped batch the difficulties that are added to an address's minute
/// are those of all shares of the address in the batch, each once and in their order: one
/// write adds them where there are any, none where there are none, and the minute is
/// counted as often.
pub proof fn minutes_get_every_difficulty(batch: BatchView, minute_ts: i64, address: Seq<char>)
    requires
        grouped(batch),
        minute_ts - 86_400 >= i64::MIN,
    ensures
        ({
            let writes = flush_writes(batch, minute_ts);
            let own = batch.shares.filter(|s: ShareView| s.miner_address == address);
            let adds = writes.filter(
                |w: WriteView|
                    w matches WriteView::AddToMinute { window, .. } && window.address == address,
            );
            let counts = writes.filter(
                |w: WriteView| w matches WriteView::CountMinute { address: of } && of == address,
            );
            if own.len() > 0 {
                &&& adds == seq![
                    WriteView::AddToMinute {
                        minute_ts,
                        window: WindowView {
                            address,
                            difficulties: own.map_values(|s: ShareView| s.difficulty_bits),
                        },
                    },
                ]
                &&& counts == seq![WriteView::CountMinute { address }]
            } else {
                adds.len() == 0 && counts.len() == 0
            }
        }),
{
    let writes = flush_writes(batch, minute_ts);
    let own = batch.shares.filter(|s: ShareView| s.miner_address == address);
    let adds = |w: WriteView|
        w matches WriteView::AddToMinute { window, .. } && window.address == address;
    let counts = |w: WriteView| w matches WriteView::CountMinute { address: of } && of == address;
    let b = batch.miners.len() + 2 * batch.shares.len();
    flush_writes_are_what_waits(batch, minute_ts);
    an_address_has_all_its_shares(batch.shares, address);
    let at = lemma_place_exists(batch.windows, address);
    assert(own.map_values(|s: ShareView| s.difficulty_bits).len() == own.len());
    assert forall|i: int| 0 <= i < writes.len() implies {
        &&& adds(#[trigger] writes[i]) <==> has_window(batch.windows, address) && i == b + 2 * at
        &&& counts(writes[i]) <==> has_window(batch.windows, address) && i == b + 2 * at + 1
    } by {
        let a = batch.miners.len() as int;
        if i < a {
            assert(writes[i] == (WriteView::InsertMiner { miner: batch.miners[i] }));
        } else if i < b {
            let k = (i - a) / 2;
            let share = batch.shares[k];
            assert(writes[a + 2 * k] is InsertShare && writes[a + 2 * k + 1] is CountShare);
            assert(i == a + 2 * k || i == a + 2 * k + 1);
        } else if i < b + 2 * batch.windows.len() {
            let k = (i - b) / 2;
            let window = batch.windows[k];
            assert(writes[b + 2 * k] == (WriteView::AddToMinute { minute_ts, window }));
            assert(writes[b + 2 * k + 1] == (WriteView::CountMinute { address: window.address }));
            assert(i == b + 2 * k || i == b + 2 * k + 1);
            if window.address == address {
                if k < at {
                    assert(batch.windows[k].address != address);
                } else if at < k {
                    assert(batch.windows[at].address != batch.windows[k].address);
                }
            }
        }
    }
    if has_window(batch.windows, address) {
        let window = batch.windows[at];
        assert(window.difficulties == difficulties_of(batch.shares, address));
        assert(window.address == address);
        lemma_only_one(writes, adds, b + 2 * at);
        lemma_only_one(writes, counts, b + 2 * at + 1);
        assert(window =~= WindowView {
            address,
            difficulties: own.map_values(|s: ShareView| s.difficulty_bits),
        });
    } else {
        assert forall|k: int| 0 <= k < batch.shares.len() implies (
        #[trigger] batch.shares[k]).miner_address != address by {
            assert(has_window(batch.windows, batch.shares[k].miner_address));
        }
        lemma_no_window_no_shares(batch.shares, address);
        lemma_not_any(writes, adds);
        lemma_not_any(writes, counts);
    }
}

proof fn lemma_not_any(writes: Seq<WriteView>, pred: spec_fn(WriteView) -> bool)
    requires
        forall|i: int| 0 <= i < writes.len() ==> !pred(#[trigger] writes[i]),
    ensures
        writes.filter(pred).len() == 0,
    decreases writes.len(),
{
    reveal(Seq::filter);
    if writes.len() > 0 {
        let fewer = writes.drop_last();
        assert forall|i: int| 0 <= i < fewer.len() implies !pred(#[trigger] fewer[i]) by {
            assert(fewer[i] == writes[i]);
        }
        lemma_not_any(fewer, pred);
        assert(writes.last() == writes[writes.len() - 1]);
    }
}

proof fn lemma_only_one(writes: Seq<WriteView>, pred: spec_fn(WriteView) -> bool, k: int)
    requires
        0 <= k < writes.len(),
        forall|i: int| 0 <= i < writes.len() ==> (pred(#[trigger] writes[i]) <==> i == k),
    ensures
        writes.filter(pred) == seq![writes[k]],
    decreases writes.len(),
{
    reveal(Seq::filter);
    let fewer = writes.drop_last();
    assert(writes.last() == writes[writes.len() - 1]);
    assert forall|i: int| 0 <= i < fewer.len() implies (pred(#[trigger] fewer[i]) <==> i == k) by {
        assert(fewer[i] == writes[i]);
    }
    if k == writes.len() - 1 {
        lemma_not_any(fewer, pred);
        assert(writes.filter(pred) =~= seq![writes[k]]);
    } else {
        lemma_only_one(fewer, pred, k);
        assert(fewer[k] == writes[k]);
    }
}

// ── Best share ────────────────────────────────────────────────────────────────

/// Whether `a` comes before `b`, byte by byte from the front.
pub open spec fn lex_less(a: Seq<u8>, b: Seq<u8>) -> bool
    decreases a.len(),
{
    if a.len() == 0 || b.len() == 0 {
        a.len() == 0 && b.len() > 0
    } else if a[0] != b[0] {
        a[0] < b[0]
    } else {
        lex_less(a.drop_first(), b.drop_first())
    }
}

/// The better of the best hash so far and a new one: the lower.
pub open spec fn better(best: Option<Seq<u8>>, hash: Seq<u8>) -> Seq<u8> {
    match best {
        Some(old_best) => if lex_less(hash, old_best) {
            hash
        } else {
            old_best
        },
        None => hash,
    }
}

/// The best hash after shares with these hashes.
pub open spec fn best_of(hashes: Seq<Seq<u8>>) -> Option<Seq<u8>>
    decreases hashes.len(),
{
    if hashes.len() == 0 {
        None
    } else {
        Some(better(best_of(hashes.drop_last()), hashes.last()))
    }
}

/// Of two byte strings of one length, one comes first unless they are equal.
pub proof fn lemma_lex_total(a: Seq<u8>, b: Seq<u8>)
    requires
        a.len() == b.len(),
    ensures
        lex_less(a, b) || lex_less(b, a) || a == b,
        !(lex_less(a, b) && lex_less(b, a)),
        a == b ==> !lex_less(a, b),
    decreases a.len(),
{
    if a.len() == 0 {
        assert(a =~= b);
    } else {
        let x = a.drop_first();
        let y = b.drop_first();
        lemma_lex_total(x, y);
        if a[0] == b[0] {
            assert(lex_less(a, b) == lex_less(x, y));
            assert(lex_less(b, a) == lex_less(y, x));
            if x == y {
                assert(a =~= seq![a[0]] + x);
                assert(b =~= seq![b[0]] + y);
            }
        }
    }
}

pub proof fn lemma_lex_transitive(a: Seq<u8>, b: Seq<u8>, c: Seq<u8>)
    requires
        lex_less(a, b),
        lex_less(b, c),
    ensures
        lex_less(a, c),
    decreases a.len(),
{
    if a.len() > 0 && b.len() > 0 && c.len() > 0 && a[0] == b[0] && b[0] == c[0] {
        lemma_lex_transitive(a.drop_first(), b.drop_first(), c.drop_first());
    }
}

/// The best hash of a miner is the lowest of its shares' hashes, whatever the order
/// in which they came.
pub proof fn best_share_is_the_lowest(hashes: Seq<Seq<u8>>)
    requires
        hashes.len() > 0,
        forall|i: int| 0 <= i < hashes.len() ==> (#[trigger] hashes[i]).len() == 32,
    ensures
        best_of(hashes) matches Some(best) && hashes.contains(best) && forall|i: int|
            0 <= i < hashes.len() ==> !lex_less(#[trigger] hashes[i], best),
    decreases hashes.len(),
{
    let before = hashes.drop_last();
    let last = hashes.last();
    let end = hashes.len() - 1;
    let best = best_of(hashes)->0;
    lemma_lex_total(last, last);
    if before.len() == 0 {
        assert(hashes[end] == best);
    } else {
        assert forall|i: int| 0 <= i < before.len() implies (#[trigger] before[i]).len() == 32 by {
            assert(before[i] == hashes[i]);
        }
        best_share_is_the_lowest(before);
        let old_best = best_of(before)->0;
        let k = choose|k: int| 0 <= k < before.len() && before[k] == old_best;
        assert(hashes[k] == old_best);
        assert(hashes[end] == last);
        assert forall|i: int| 0 <= i < hashes.len() implies !lex_less(#[trigger] hashes[i], best) by {
            if i < end {
                assert(before[i] == hashes[i]);
                assert(!lex_less(before[i], old_best));
                if lex_less(last, old_best) && lex_less(hashes[i], last) {
                    lemma_lex_transitive(hashes[i], last, old_best);
                }
            }
        }
    }
}

/// Two runs of shares with the same hashes have the same best hash: the order of
/// arrival does not matter.
pub proof fn best_share_does_not_depend_on_order(a: Seq<Seq<u8>>, b: Seq<Seq<u8>>)
    requires
        a.len() > 0,
        forall|i: int| 0 <= i < a.len() ==> (#[trigger] a[i]).len() == 32,
        a.to_multiset() == b.to_multiset(),
    ensures
        best_of(a) == best_of(b),
{
    broadcast use vstd::seq_lib::group_to_multiset_ensures;

    assert(a.to_multiset().len() == a.len());
    assert(b.to_multiset().len() == b.len());
    assert forall|i: int| 0 <= i < b.len() implies (#[trigger] b[i]).len() == 32 by {
        assert(b.contains(b[i]));
        assert(b.to_multiset().count(b[i]) > 0);
        assert(a.contains(b[i]));
    }
    best_share_is_the_lowest(a);
    best_share_is_the_lowest(b);
    let best_a = best_of(a)->0;
    let best_b = best_of(b)->0;
    assert(b.to_multiset().count(best_a) > 0);
    assert(b.contains(best_a));
    assert(a.to_multiset().count(best_b) > 0);
    assert(a.contains(best_b));
    let i = choose|i: int| 0 <= i < a.len() && a[i] == best_b;
    let j = choose|j: int| 0 <= j < b.len() && b[j] == best_a;
    assert(!lex_less(a[i], best_a));
    assert(!lex_less(b[j], best_b));
    let k = choose|k: int| 0 <= k < a.len() && a[k] == best_a;
    assert(a[k].len() == 32 && a[i].len() == 32);
    lemma_lex_total(best_a, best_b);
}

/// A hash comes before another of its length exactly where it is the lower number, most
/// significant byte first.
pub proof fn the_lower_number_comes_first(a: Seq<u8>, b: Seq<u8>)
    requires
        a.len() == b.len(),
    ensures
        lex_less(a, b) <==> be_value(a) < be_value(b),
        a != b ==> be_value(a) != be_value(b),
{
    lemma_lex_total(a, b);
    if lex_less(a, b) {
        lemma_be_value_order(a, b);
    }
    if lex_less(b, a) {
        lemma_be_value_order(b, a);
    }
}

/// One more share counts one, and the best hash is then the lower number of the share's
/// and the best before, most significant byte first.
pub proof fn counting_a_share(stats: StatsView, hash: Seq<u8>)
    requires
        stats.best_share_hash matches Some(best) ==> best.len() == hash.len(),
    ensures
        ({
            let after = with_share(stats, hash);
            let best = after.best_share_hash->0;
            &&& after.shares_count == stats.shares_count + 1
            &&& after.best_share_hash is Some
            &&& best == hash || stats.best_share_hash == Some(best)
            &&& be_value(best) <= be_value(hash)
            &&& stats.best_share_hash matches Some(old_best) ==> be_value(best) <= be_value(
                old_best,
            )
        }),
{
    if stats.best_share_hash is Some {
        the_lower_number_comes_first(hash, stats.best_share_hash->0);
    }
}

fn is_lower(a: &[u8; 32], b: &[u8; 32]) -> (lower: bool)
    ensures
        lower == lex_less(a@, b@),
{
    assert(a@.skip(0) =~= a@);
    assert(b@.skip(0) =~= b@);
    let mut i: usize = 0;
    while i < 32
        invariant
            i <= 32,
            lex_less(a@, b@) == lex_less(a@.skip(i as int), b@.skip(i as int)),
        decreases 32 - i,
    {
        proof {
            assert(a@.skip(i as int).drop_first() =~= a@.skip(i + 1));
            assert(b@.skip(i as int).drop_first() =~= b@.skip(i + 1));
        }
        if a[i] != b[i] {
            return a[i] < b[i];
        }
        i = i + 1;
    }
    false
}

/// The better of a miner's best share hash and the hash of a new share.
pub fn better_share_hash(best: &Option<[u8; 32]>, hash: &[u8; 32]) -> (out: [u8; 32])
    ensures
        out@ == better(
            match *best {
                Some(old_best) => Some(old_best@),
                None => None,
            },
            hash@,
        ),
{
    match best {
        Some(old_best) => if is_lower(hash, old_best) {
            *hash
        } else {
            *old_best
        },
        None => *hash,
    }
}

/// What is kept of a miner's shares: how many there were, and the best hash.
#[derive(Debug, Clone)]
pub struct MinerStats {
    pub shares_count: i64,
    pub best_share_hash: Option<[u8; 32]>,
}

#[verifier::ext_equal]
pub struct StatsView {
    pub shares_count: int,
    pub best_share_hash: Option<Seq<u8>>,
}

impl View for MinerStats {
    type V = StatsView;

    open spec fn view(&self) -> StatsView {
        StatsView {
            shares_count: self.shares_count as int,
            best_share_hash: match self.best_share_hash {
                Some(hash) => Some(hash@),
                None => None,
            },
        }
    }
}

/// The statistics after one more share.
pub open spec fn with_share(stats: StatsView, hash: Seq<u8>) -> StatsView {
    StatsView {
        shares_count: stats.shares_count + 1,
        best_share_hash: Some(better(stats.best_share_hash, hash)),
    }
}

/// A miner's statistics are seen as they are.
pub proof fn stats_are_seen_as_they_are(stats: MinerStats, hash: [u8; 32])
    ensures
        stats@.shares_count == stats.shares_count,
        stats@.best_share_hash is Some <==> stats.best_share_hash is Some,
        stats.best_share_hash == Some(hash) ==> stats@.best_share_hash == Some(hash@),
{
}

/// The statistics after one more share.
pub fn count_share(stats: &MinerStats, hash: &[u8; 32]) -> (after: MinerStats)
    requires
        stats.shares_count < i64::MAX,
    ensures
        after@ == with_share(stats@, hash@),
{
    MinerStats {
        shares_count: stats.shares_count + 1,
        best_share_hash: Some(better_share_hash(&stats.best_share_hash, hash)),
    }
}

/// The statistics of an address after a write.
pub open spec fn stats_after(stats: StatsView, address: Seq<char>, write: WriteView) -> StatsView {
    match write {
        WriteView::CountShare { address: of, difficulty_bits: _, block_hash_be } => if of
            == address {
            with_share(stats, block_hash_be)
        } else {
            stats
        },
        _ => stats,
    }
}

/// The statistics of an address after a run of writes.
pub open spec fn stats_after_all(
    stats: StatsView,
    address: Seq<char>,
    writes: Seq<WriteView>,
) -> StatsView
    decreases writes.len(),
{
    if writes.len() == 0 {
        stats
    } else {
        stats_after(stats_after_all(stats, address, writes.drop_last()), address, writes.last())
    }
}

/// The hashes of an address's shares, in order.
pub open spec fn hashes_of(shares: Seq<ShareView>, address: Seq<char>) -> Seq<Seq<u8>>
    decreases shares.len(),
{
    if shares.len() == 0 {
        Seq::empty()
    } else if shares.last().miner_address == address {
        hashes_of(shares.drop_last(), address).push(shares.last().block_hash_be)
    } else {
        hashes_of(shares.drop_last(), address)
    }
}

proof fn lemma_stats_of_joined(
    stats: StatsView,
    address: Seq<char>,
    a: Seq<WriteView>,
    b: Seq<WriteView>,
)
    ensures
        stats_after_all(stats, address, a + b) == stats_after_all(
            stats_after_all(stats, address, a),
            address,
            b,
        ),
    decreases b.len(),
{
    if b.len() == 0 {
        assert(a + b =~= a);
    } else {
        assert((a + b).drop_last() =~= a + b.drop_last());
        lemma_stats_of_joined(stats, address, a, b.drop_last());
    }
}

proof fn lemma_other_writes_leave_stats(
    stats: StatsView,
    address: Seq<char>,
    writes: Seq<WriteView>,
)
    requires
        forall|i: int| 0 <= i < writes.len() ==> !((#[trigger] writes[i]) is CountShare),
    ensures
        stats_after_all(stats, address, writes) == stats,
    decreases writes.len(),
{
    if writes.len() > 0 {
        assert(writes.last() == writes[writes.len() - 1]);
        lemma_other_writes_leave_stats(stats, address, writes.drop_last());
    }
}

/// Whether statistics are those before, with these hashes counted in: the count
/// grew by their number, and the best hash is the least of them and the best before.
pub open spec fn counts_in(before: StatsView, hashes: Seq<Seq<u8>>, after: StatsView) -> bool {
    &&& after.shares_count == before.shares_count + hashes.len()
    &&& after.best_share_hash is None <==> before.best_share_hash is None && hashes.len() == 0
    &&& after.best_share_hash matches Some(best) ==> {
        &&& before.best_share_hash == Some(best) || hashes.contains(best)
        &&& before.best_share_hash matches Some(old_best) ==> !lex_less(old_best, best)
        &&& forall|i: int| 0 <= i < hashes.len() ==> !lex_less(#[trigger] hashes[i], best)
    }
}

proof fn lemma_share_writes_count(stats: StatsView, address: Seq<char>, shares: Seq<ShareView>)
    requires
        stats.best_share_hash matches Some(hash) ==> hash.len() == 32,
        forall|i: int| 0 <= i < shares.len() ==> (#[trigger] shares[i]).block_hash_be.len() == 32,
    ensures
        ({
            let after = stats_after_all(stats, address, share_writes(shares));
            &&& counts_in(stats, hashes_of(shares, address), after)
            &&& after.best_share_hash matches Some(hash) ==> hash.len() == 32
        }),
    decreases shares.len(),
{
    let hashes = hashes_of(shares, address);
    if shares.len() == 0 {
        if stats.best_share_hash is Some {
            lemma_lex_total(stats.best_share_hash->0, stats.best_share_hash->0);
        }
    } else {
        let fewer = shares.drop_last();
        let share = shares.last();
        assert(share == shares[shares.len() - 1]);
        assert forall|i: int| 0 <= i < fewer.len() implies (
        #[trigger] fewer[i]).block_hash_be.len() == 32 by {
            assert(fewer[i] == shares[i]);
        }
        lemma_share_writes_count(stats, address, fewer);
        let before = stats_after_all(stats, address, share_writes(fewer));
        let pair = writes_of_share(share);
        lemma_stats_of_joined(stats, address, share_writes(fewer), pair);
        assert(pair.drop_last() =~= seq![pair[0]]);
        assert(pair.drop_last().drop_last() =~= Seq::empty());
        assert(stats_after_all(before, address, pair.drop_last().drop_last()) == before);
        assert(stats_after_all(before, address, pair.drop_last()) == before);
        let after = stats_after_all(before, address, pair);
        if share.miner_address == address {
            let earlier = hashes_of(fewer, address);
            let hash = share.block_hash_be;
            let best = after.best_share_hash->0;
            assert(hashes[earlier.len() as int] == hash);
            lemma_lex_total(hash, hash);
            if before.best_share_hash is Some {
                let old_best = before.best_share_hash->0;
                lemma_lex_total(hash, old_best);
                if earlier.contains(old_best) {
                    let k = choose|k: int| 0 <= k < earlier.len() && earlier[k] == old_best;
                    assert(hashes[k] == old_best);
                }
                assert forall|i: int| 0 <= i < hashes.len() implies !lex_less(
                    #[trigger] hashes[i],
                    best,
                ) by {
                    if i < earlier.len() {
                        assert(earlier[i] == hashes[i]);
                        if lex_less(hash, old_best) && lex_less(hashes[i], hash) {
                            lemma_lex_transitive(hashes[i], hash, old_best);
                        }
                    }
                }
                if stats.best_share_hash is Some && lex_less(hash, old_best) && lex_less(
                    stats.best_share_hash->0,
                    hash,
                ) {
                    lemma_lex_transitive(stats.best_share_hash->0, hash, old_best);
                }
            } else {
                assert(hashes =~= seq![hash]);
            }
        }
    }
}

/// After a flush the count of every address has grown by the number of its shares
/// in the batch, and its best hash is the least of its best before and of the
/// hashes of these shares, whatever their order; so a best hash never gets worse.
pub proof fn flush_counts_every_share(
    batch: BatchView,
    minute_ts: i64,
    address: Seq<char>,
    before: StatsView,
)
    requires
        before.best_share_hash matches Some(hash) ==> hash.len() == 32,
        forall|i: int|
            0 <= i < batch.shares.len() ==> (#[trigger] batch.shares[i]).block_hash_be.len() == 32,
    ensures
        counts_in(
            before,
            hashes_of(batch.shares, address),
            stats_after_all(before, address, flush_writes(batch, minute_ts)),
        ),
{
    let first = miner_writes(batch.miners);
    let second = share_writes(batch.shares);
    let third = window_writes(batch.windows, minute_ts);
    let fourth = seq![
        WriteView::PruneMinutes { cutoff: (minute_ts - MINUTE_RETENTION_SECS) as i64 },
    ];
    lemma_stats_of_joined(before, address, first + second + third, fourth);
    lemma_stats_of_joined(before, address, first + second, third);
    lemma_stats_of_joined(before, address, first, second);
    lemma_other_writes_leave_stats(before, address, first);
    lemma_share_writes_count(before, address, batch.shares);
    let after = stats_after_all(before, address, second);
    lemma_window_writes(batch.windows, minute_ts);
    assert forall|i: int| 0 <= i < third.len() implies !((#[trigger] third[i]) is CountShare) by {
        let w = i / 2;
        let pair = third.subrange(2 * w, 2 * w + 2);
        assert(pair == writes_of_window(batch.windows[w], minute_ts));
        assert(third[i] == pair[i - 2 * w]);
    }
    lemma_other_writes_leave_stats(after, address, third);
    lemma_other_writes_leave_stats(after, address, fourth);
}

// ── Difficulty ────────────────────────────────────────────────────────────────

/// The number that `data` denotes, most significant byte first.
pub open spec fn be_value(data: Seq<u8>) -> nat
    decreases data.len(),
{
    if data.len() == 0 {
        0
    } else {
        256 * be_value(data.drop_last()) + data.last() as nat
    }
}

/// The upper 64 bits of a hash.
pub open spec fn upper_bits(hash_be: Seq<u8>) -> nat {
    be_value(hash_be.take(8))
}

proof fn lemma_be_value_bound(data: Seq<u8>)
    requires
        data.len() <= 8,
    ensures
        be_value(data) < vstd::arithmetic::power::pow(256, data.len()),
        be_value(data) <= u64::MAX,
    decreases data.len(),
{
    reveal(vstd::arithmetic::power::pow);
    crate::bytes::lemma_pow256();
    lemma_be_value_lt(data);
    vstd::arithmetic::power::lemma_pow_increases(256, data.len(), 8);
}

proof fn lemma_be_value_lt(data: Seq<u8>)
    ensures
        be_value(data) < vstd::arithmetic::power::pow(256, data.len()),
    decreases data.len(),
{
    reveal(vstd::arithmetic::power::pow);
    if data.len() > 0 {
        lemma_be_value_lt(data.drop_last());
    }
}

proof fn lemma_be_value_order(a: Seq<u8>, b: Seq<u8>)
    requires
        a.len() == b.len(),
        lex_less(a, b),
    ensures
        be_value(a) < be_value(b),
    decreases a.len(),
{
    let p = a.drop_last();
    let q = b.drop_last();
    lemma_lex_total(p, q);
    if p == q {
        lemma_lex_last(a, b);
    } else if lex_less(p, q) {
        lemma_be_value_order(p, q);
    } else {
        lemma_lex_prefix(q, p, b, a);
        lemma_lex_total(a, b);
    }
}

proof fn lemma_lex_last(a: Seq<u8>, b: Seq<u8>)
    requires
        a.len() == b.len(),
        a.len() > 0,
        a.drop_last() == b.drop_last(),
        lex_less(a, b),
    ensures
        a.last() < b.last(),
    decreases a.len(),
{
    if a.len() == 1 {
        assert(!lex_less(a.drop_first(), b.drop_first()));
    } else {
        assert(a[0] == a.drop_last()[0] && b[0] == b.drop_last()[0]);
        assert(a.drop_first().drop_last() =~= a.drop_last().drop_first());
        assert(b.drop_first().drop_last() =~= b.drop_last().drop_first());
        lemma_lex_last(a.drop_first(), b.drop_first());
    }
}

proof fn lemma_lex_prefix(p: Seq<u8>, q: Seq<u8>, a: Seq<u8>, b: Seq<u8>)
    requires
        p.len() == q.len(),
        a.len() >= p.len(),
        b.len() >= q.len(),
        a.take(p.len() as int) == p,
        b.take(q.len() as int) == q,
        lex_less(p, q),
    ensures
        lex_less(a, b),
    decreases p.len(),
{
    if p.len() > 0 {
        assert(a[0] == a.take(p.len() as int)[0]);
        assert(b[0] == b.take(q.len() as int)[0]);
        if p[0] == q[0] {
            assert(a.drop_first().take(p.len() - 1) =~= p.drop_first());
            assert(b.drop_first().take(q.len() - 1) =~= q.drop_first());
            lemma_lex_prefix(p.drop_first(), q.drop_first(), a.drop_first(), b.drop_first());
        }
    }
}

proof fn lemma_values_agree(data: Seq<u8>)
    ensures
        crate::bytes::le_value(data) == be_value(data.reverse()),
    decreases data.len(),
{
    if data.len() > 0 {
        lemma_values_agree(data.drop_first());
        assert(data.reverse().drop_last() =~= data.drop_first().reverse());
    }
}

/// Whether one 256-bit number is at most another, both least significant byte first.
pub fn at_most(a: &[u8; 32], b: &[u8; 32]) -> (yes: bool)
    ensures
        yes == (crate::bytes::le_value(a@) <= crate::bytes::le_value(b@)),
{
    let x: [u8; 32] = backwards(a);
    let y: [u8; 32] = backwards(b);
    proof {
        lemma_values_agree(a@);
        lemma_values_agree(b@);
        lemma_lex_total(x@, y@);
        if lex_less(x@, y@) {
            lemma_be_value_order(x@, y@);
        }
        if lex_less(y@, x@) {
            lemma_be_value_order(y@, x@);
        }
    }
    !is_lower(&y, &x)
}

/// A hash in the other byte order.
pub fn backwards(hash: &[u8; 32]) -> (out: [u8; 32])
    ensures
        out@ == hash@.reverse(),
{
    let mut out: [u8; 32] = [0u8; 32];
    let mut i: usize = 0;
    while i < 32
        invariant
            i <= 32,
            forall|j: int| 0 <= j < i ==> out@[j] == hash@[31 - j],
        decreases 32 - i,
    {
        out[i] = hash[31 - i];
        i = i + 1;
    }
    assert(out@ =~= hash@.reverse());
    out
}

/// A lower hash never has a lower difficulty: its upper bits, by which the
/// difficulty is divided, are at most those of the higher hash.
pub proof fn lower_hash_is_no_easier(a: Seq<u8>, b: Seq<u8>)
    requires
        a.len() == 32,
        b.len() == 32,
        lex_less(a, b),
    ensures
        upper_bits(a) <= upper_bits(b),
{
    let p = a.take(8);
    let q = b.take(8);
    lemma_lex_total(p, q);
    if lex_less(p, q) {
        lemma_be_value_order(p, q);
    } else if lex_less(q, p) {
        lemma_lex_prefix(q, p, b, a);
        lemma_lex_total(a, b);
    }
}

proof fn lemma_be_value_joined(a: Seq<u8>, b: Seq<u8>)
    ensures
        be_value(a + b) == be_value(a) * vstd::arithmetic::power::pow(256, b.len()) + be_value(b),
    decreases b.len(),
{
    reveal(vstd::arithmetic::power::pow);
    if b.len() == 0 {
        assert(a + b =~= a);
    } else {
        let fewer = b.drop_last();
        lemma_be_value_joined(a, fewer);
        assert((a + b).drop_last() =~= a + fewer);
        assert(256 * (be_value(a) * vstd::arithmetic::power::pow(256, fewer.len())) == be_value(a)
            * vstd::arithmetic::power::pow(256, b.len())) by (nonlinear_arith)
            requires
                vstd::arithmetic::power::pow(256, b.len()) == 256 * vstd::arithmetic::power::pow(
                    256,
                    fewer.len(),
                ),
        ;
    }
}

/// The upper 64 bits of a hash are the number that it denotes, without its lower 24 bytes.
pub proof fn upper_bits_are_the_upper_bits(hash: Seq<u8>)
    requires
        hash.len() == 32,
    ensures
        upper_bits(hash) * vstd::arithmetic::power::pow(256, 24) <= be_value(hash) < (upper_bits(
            hash,
        ) + 1) * vstd::arithmetic::power::pow(256, 24),
        be_value(hash) == crate::bytes::le_value(hash.reverse()),
{
    let low = hash.skip(8);
    assert(hash =~= hash.take(8) + low);
    lemma_be_value_joined(hash.take(8), low);
    lemma_be_value_lt(low);
    vstd::arithmetic::mul::lemma_mul_is_distributive_add_other_way(
        vstd::arithmetic::power::pow(256, 24),
        upper_bits(hash) as int,
        1,
    );
    lemma_values_agree(hash.reverse());
    assert(hash.reverse().reverse() =~= hash);
}

/// The difficulty of a hash as a fraction: the easiest target's upper bits over the
/// hash's. Nothing where the hash's upper bits are zero, for which the difficulty
/// is as high as can be.
pub fn difficulty_ratio(hash_be: &[u8; 32]) -> (ratio: Option<(u64, u64)>)
    ensures
        match ratio {
            Some(r) => r.0 == PDIFF1_UPPER && r.0 == 0xffff * 0x1_0000 && r.1 == upper_bits(
                hash_be@,
            ) && r.1 > 0,
            None => upper_bits(hash_be@) == 0,
        },
{
    let mut upper: u64 = 0;
    let mut i: usize = 0;
    while i < 8
        invariant
            i <= 8,
            upper == be_value(hash_be@.take(i as int)),
        decreases 8 - i,
    {
        proof {
            assert(hash_be@.take(i + 1).drop_last() =~= hash_be@.take(i as int));
            lemma_be_value_bound(hash_be@.take(i + 1));
        }
        upper = upper * 256 + hash_be[i] as u64;
        i = i + 1;
    }
    if upper == 0 {
        None
    } else {
        Some((PDIFF1_UPPER, upper))
    }
}

// ── Time ──────────────────────────────────────────────────────────────────────

/// A point in time as the system's clock gives it.
#[verifier::external_type_specification]
#[verifier::external_body]
pub struct ExSystemTime(std::time::SystemTime);

/// The error of a time before the Unix epoch.
#[verifier::external_type_specification]
#[verifier::external_body]
pub struct ExSystemTimeError(std::time::SystemTimeError);

/// `std::time::SystemTime::now`: whatever the clock says.
#[verifier::external_body]
fn clock_now() -> (now: std::time::SystemTime) {
    std::time::SystemTime::now()
}

/// `std::time::SystemTime::duration_since` the Unix epoch: an error where the time
/// lies before it.
#[verifier::external_body]
fn since_epoch(now: std::time::SystemTime) -> (out: Result<
    std::time::Duration,
    std::time::SystemTimeError,
>) {
    now.duration_since(std::time::UNIX_EPOCH)
}

/// `std::time::Duration::as_secs`: the whole seconds of a duration.
#[verifier::external_body]
fn whole_seconds(duration: std::time::Duration) -> (secs: u64) {
    duration.as_secs()
}

/// A number of seconds since the Unix epoch; 0 where the clock lies before it.
pub fn epoch_seconds(since: Option<u64>) -> (secs: i64)
    ensures
        secs == match since {
            Some(n) => n as i64,
            None => 0,
        },
{
    match since {
        Some(n) => n as i64,
        None => 0,
    }
}

/// The clock in seconds since the Unix epoch. It depends on the clock alone, of
/// which nothing is known here.
pub fn now_secs() -> (secs: i64) {
    let since: Option<u64> = match since_epoch(clock_now()) {
        Ok(duration) => Some(whole_seconds(duration)),
        Err(_) => None,
    };
    epoch_seconds(since)
}

/// The start of the minute that a time lies in, by truncation towards the epoch.
pub open spec fn minute_of(ts_secs: i64) -> int {
    if ts_secs >= 0 {
        (ts_secs as int / 60) * 60
    } else {
        -(((-ts_secs) / 60) * 60)
    }
}

/// The start of the minute that `ts_secs` lies in.
pub fn floor_minute(ts_secs: i64) -> (minute: i64)
    ensures
        minute == minute_of(ts_secs),
{
    (ts_secs / 60) * 60
}

/// A time of the epoch or later lies in its minute: at the minute's start or less
/// than a minute after it, and all times of a minute have one start.
pub proof fn minutes_partition_time(ts_secs: i64, other: i64)
    requires
        ts_secs >= 0,
        other >= 0,
    ensures
        minute_of(ts_secs) % 60 == 0,
        minute_of(ts_secs) <= ts_secs < minute_of(ts_secs) + 60,
        minute_of(ts_secs) <= other < minute_of(ts_secs) + 60 <==> minute_of(other) == minute_of(
            ts_secs,
        ),
{
}

/// Before the epoch a minute starts at its end: it is that of the same time after the
/// epoch, with the other sign.
pub proof fn minutes_before_the_epoch(ts_secs: i64)
    requires
        ts_secs > i64::MIN,
    ensures
        minute_of((-ts_secs) as i64) == -minute_of(ts_secs),
{
}

/// The earliest minute that counts for a hashrate over the last minutes.
pub fn hashrate_cutoff(now: i64, lookback_minutes: u64) -> (cutoff: i64)
    requires
        i64::MIN <= (lookback_minutes as i64) * 60 <= i64::MAX,
        i64::MIN <= now - (lookback_minutes as i64) * 60 <= i64::MAX,
    ensures
        cutoff == now - (lookback_minutes as i64) * 60,
{
    now - (lookback_minutes as i64) * 60
}

} // verus!
