//! Job construction.
//!
//! Unlike pools that use a single pool address for all miners, this pool builds
//! the coinbase output with each miner's own Bitcoin address. The piece of the
//! coinbase that holds the payout is therefore different for every miner.
//!
//! The merkle branch depends only on the block template and is shared across
//! all miners for the same template.
//!
//! # Coinbase split
//! The coinbase is split around the extranonce:
//!
//!   full_coinbase = coinb1 || extranonce || coinb2
//!
//! The full coinbase is serialized with a placeholder in the extranonce's place,
//! the placeholder is located, and the bytes are cut there.
use crate::bytes;
use crate::coinbase;
use crate::coinbase::{CoinbaseTx, TxOutput};
use crate::hexadecimal;
use crate::merkle;
use crate::rpc::{BlockTemplate, TemplateTransaction};
use vstd::prelude::*;

verus! {

pub const EXTRANONCE1_SIZE: usize = 4;

pub const EXTRANONCE2_SIZE: usize = 4;

/// Bytes of the extranonce area that the pool assigns to an extended channel.
pub const SV2_EXTRANONCE_PREFIX_SIZE: usize = 32;

/// Bytes of the extranonce area that the miner of an extended channel rolls.
pub const SV2_EXTRANONCE2_SIZE: usize = 4;

/// Total bytes of the extranonce area of an extended channel.
pub const SV2_EXTRANONCE_TOTAL: usize = SV2_EXTRANONCE_PREFIX_SIZE + SV2_EXTRANONCE2_SIZE;

/// Coinbase transaction split at the extranonce position.
///
/// Full coinbase bytes = `coinb1 || extranonce || coinb2`
#[derive(Debug, Clone)]
pub struct CoinbaseParts {
    pub coinb1: Vec<u8>,
    pub coinb2: Vec<u8>,
}

/// A job ready to be sent to a miner via `mining.notify`.
#[derive(Debug, Clone)]
pub struct StratumJob {
    pub job_id: String,
    /// Previous block hash: full 32-byte reversal of the RPC display format.
    pub prevhash: String,
    pub coinb1: String,
    pub coinb2: String,
    /// Sibling hashes at each merkle level, as lowercase hex.
    pub merkle_branch: Vec<String>,
    /// Block version as big-endian hex (8 chars).
    pub version: String,
    /// Compact target bits as big-endian hex (8 chars).
    pub nbits: String,
    /// Current time as big-endian hex (8 chars).
    pub ntime: String,
    pub clean_jobs: bool,
}

/// The text is no Bitcoin address.
#[derive(Debug, Clone, Copy, PartialEq, Eq, Structural)]
pub struct InvalidAddress;

// ── Coinbase construction ──────────────────────────────────────────────────────

/// Stands in for the extranonce until the cut is made.
pub open spec fn extranonce_placeholder() -> Seq<u8> {
    seq![0xdeu8, 0xadu8, 0xbeu8, 0xefu8, 0xcau8, 0xfeu8, 0xbau8, 0xbeu8]
}

/// Stands in for an extended channel's extranonce until the cut is made.
pub open spec fn sv2_extranonce_placeholder() -> Seq<u8> {
    coinbase::run(0xcc, SV2_EXTRANONCE_TOTAL as nat)
}

/// The length of an optional script.
pub open spec fn script_len(script: Option<Vec<u8>>) -> nat {
    match script {
        Some(data) => data@.len(),
        None => 0,
    }
}

/// An optional script's bytes.
pub open spec fn script_view(script: Option<Vec<u8>>) -> Option<Seq<u8>> {
    match script {
        Some(data) => Some(data@),
        None => None,
    }
}

fn placeholder_bytes() -> (out: Vec<u8>)
    ensures
        out@ == extranonce_placeholder(),
{
    let out: Vec<u8> = vec![0xdeu8, 0xadu8, 0xbeu8, 0xefu8, 0xcau8, 0xfeu8, 0xbau8, 0xbeu8];
    assert(out@ =~= extranonce_placeholder());
    out
}

fn sv2_placeholder_bytes() -> (out: Vec<u8>)
    ensures
        out@ == sv2_extranonce_placeholder(),
{
    let out: Vec<u8> = vec![0xccu8; SV2_EXTRANONCE_TOTAL];
    assert(out@ =~= sv2_extranonce_placeholder());
    out
}

fn pool_tag() -> (out: Vec<u8>)
    ensures
        out@ == coinbase::pool_tag(),
{
    let out: Vec<u8> = vec![
        0x2fu8,
        0x6cu8,
        0x6fu8,
        0x74u8,
        0x74u8,
        0x65u8,
        0x72u8,
        0x79u8,
        0x2du8,
        0x70u8,
        0x6fu8,
        0x6fu8,
        0x6cu8,
        0x2fu8,
    ];
    assert(out@ =~= coinbase::pool_tag());
    out
}

/// The coinbase script: BIP34 height, pool tag, and `extranonce` in its place.
pub fn build_coinbase_script(height: u32, extranonce: &Vec<u8>) -> (script: Vec<u8>)
    requires
        extranonce@.len() < 76,
    ensures
        script@ == coinbase::coinbase_script(height, extranonce@),
{
    let tag: Vec<u8> = pool_tag();
    coinbase::script_of_pushes(height, tag.as_slice(), extranonce.as_slice())
}

fn coinbase_with_extranonce(
    height: u32,
    extranonce: &Vec<u8>,
    coinbase_value: i64,
    miner_script: Vec<u8>,
    witness_commitment_script: Option<Vec<u8>>,
) -> (tx: CoinbaseTx)
    requires
        extranonce@.len() < 76,
    ensures
        tx@ == coinbase::coinbase_view(
            height,
            extranonce@,
            coinbase_value as u64,
            miner_script@,
            script_view(witness_commitment_script),
        ),
{
    let script_sig: Vec<u8> = build_coinbase_script(height, extranonce);
    let mut outputs: Vec<TxOutput> = Vec::new();
    outputs.push(TxOutput { value: coinbase_value as u64, script_pubkey: miner_script });
    match witness_commitment_script {
        Some(script) => {
            outputs.push(TxOutput { value: 0, script_pubkey: script });
        },
        None => {},
    }
    let tx: CoinbaseTx = CoinbaseTx {
        version: 1,
        script_sig,
        sequence: 0xffff_ffff,
        outputs,
        lock_time: 0,
    };
    assert(tx@.outputs =~= coinbase::payout_outputs(
        coinbase_value as u64,
        miner_script@,
        script_view(witness_commitment_script),
    ));
    assert(1i32 as u32 == 1u32) by (bit_vector);
    tx
}

/// The coinbase transaction with the placeholder in the extranonce's place.
pub fn build_coinbase_tx(
    height: u32,
    coinbase_value: i64,
    miner_script: Vec<u8>,
    witness_commitment_script: Option<Vec<u8>>,
) -> (tx: CoinbaseTx)
    ensures
        tx@ == coinbase::coinbase_view(
            height,
            extranonce_placeholder(),
            coinbase_value as u64,
            miner_script@,
            script_view(witness_commitment_script),
        ),
{
    let placeholder: Vec<u8> = placeholder_bytes();
    coinbase_with_extranonce(
        height,
        &placeholder,
        coinbase_value,
        miner_script,
        witness_commitment_script,
    )
}

/// The coinbase transaction of an extended channel, with the placeholder in the
/// extranonce's place.
pub fn build_coinbase_tx_sv2(
    height: u32,
    coinbase_value: i64,
    miner_script: Vec<u8>,
    witness_commitment_script: Option<Vec<u8>>,
) -> (tx: CoinbaseTx)
    ensures
        tx@ == coinbase::coinbase_view(
            height,
            sv2_extranonce_placeholder(),
            coinbase_value as u64,
            miner_script@,
            script_view(witness_commitment_script),
        ),
{
    let placeholder: Vec<u8> = sv2_placeholder_bytes();
    coinbase_with_extranonce(
        height,
        &placeholder,
        coinbase_value,
        miner_script,
        witness_commitment_script,
    )
}

/// Build `coinb1` and `coinb2` for a specific miner.
pub fn build_coinbase_parts(
    height: u32,
    coinbase_value: i64,
    miner_script: Vec<u8>,
    witness_commitment_script: Option<Vec<u8>>,
) -> (parts: CoinbaseParts)
    requires
        miner_script@.len() + script_len(witness_commitment_script) + 256 <= usize::MAX,
    ensures
        parts.coinb1@ == coinbase::before_extranonce(height, 8),
        parts.coinb2@ == coinbase::after_extranonce(
            coinbase_value as u64,
            miner_script@,
            script_view(witness_commitment_script),
        ),
{
    let ghost value = coinbase_value as u64;
    let ghost commitment = script_view(witness_commitment_script);
    proof {
        lemma_placeholder_is_cut(height, extranonce_placeholder(), value, miner_script@, commitment);
    }
    let tx: CoinbaseTx = build_coinbase_tx(
        height,
        coinbase_value,
        miner_script,
        witness_commitment_script,
    );
    let raw: Vec<u8> = coinbase::serialize_coinbase(&tx);
    let parts: CoinbaseParts = split_at_extranonce(raw);
    proof {
        coinbase::lemma_first_is_unique(
            raw@,
            extranonce_placeholder(),
            parts.coinb1@.len() as int,
            coinbase::before_extranonce(height, 8).len() as int,
        );
    }
    parts
}

/// Build coinbase parts for an SV2 extended channel.
///
/// The extranonce area is 36 bytes (32-byte prefix + 4-byte miner extranonce2).
pub fn build_sv2_coinbase_parts(
    height: u32,
    coinbase_value: i64,
    miner_script: Vec<u8>,
    witness_commitment_script: Option<Vec<u8>>,
) -> (parts: CoinbaseParts)
    requires
        miner_script@.len() + script_len(witness_commitment_script) + 256 <= usize::MAX,
    ensures
        parts.coinb1@ == coinbase::before_extranonce(height, SV2_EXTRANONCE_TOTAL as nat),
        parts.coinb2@ == coinbase::after_extranonce(
            coinbase_value as u64,
            miner_script@,
            script_view(witness_commitment_script),
        ),
{
    let ghost value = coinbase_value as u64;
    let ghost commitment = script_view(witness_commitment_script);
    proof {
        lemma_placeholder_is_cut(
            height,
            sv2_extranonce_placeholder(),
            value,
            miner_script@,
            commitment,
        );
    }
    let tx: CoinbaseTx = build_coinbase_tx_sv2(
        height,
        coinbase_value,
        miner_script,
        witness_commitment_script,
    );
    let raw: Vec<u8> = coinbase::serialize_coinbase(&tx);
    let parts: CoinbaseParts = split_at_sv2_extranonce(raw);
    proof {
        coinbase::lemma_first_is_unique(
            raw@,
            sv2_extranonce_placeholder(),
            parts.coinb1@.len() as int,
            coinbase::before_extranonce(height, SV2_EXTRANONCE_TOTAL as nat).len() as int,
        );
    }
    parts
}

/// The placeholder's first place in the serialized transaction is the extranonce's,
/// and the transaction is no longer than its scripts and a small constant.
proof fn lemma_placeholder_is_cut(
    height: u32,
    placeholder: Seq<u8>,
    value: u64,
    miner_script: Seq<u8>,
    commitment: Option<Seq<u8>>,
)
    requires
        8 <= placeholder.len() < 76,
        0x80 <= placeholder[0] < 0xff,
        0x80 <= placeholder[7] < 0xff,
        miner_script.len() <= usize::MAX,
        commitment matches Some(script) ==> script.len() <= usize::MAX,
    ensures
        ({
            let before = coinbase::before_extranonce(height, placeholder.len());
            let after = coinbase::after_extranonce(value, miner_script, commitment);
            let raw = coinbase::legacy_bytes(
                coinbase::coinbase_view(height, placeholder, value, miner_script, commitment),
            );
            &&& raw.len() <= 256 + miner_script.len() + match commitment {
                Some(script) => script.len(),
                None => 0,
            }
            &&& coinbase::first_at(raw, placeholder, before.len() as int)
            &&& raw.take(before.len() as int) == before
            &&& raw.skip((before.len() + placeholder.len()) as int) == after
        }),
{
    let before = coinbase::before_extranonce(height, placeholder.len());
    let after = coinbase::after_extranonce(value, miner_script, commitment);
    let view = coinbase::coinbase_view(height, placeholder, value, miner_script, commitment);
    let raw = coinbase::legacy_bytes(view);
    coinbase::pieces_make_the_transaction(height, placeholder, value, miner_script, commitment);
    coinbase::lemma_pattern_is_first(height, placeholder, after);
    assert(raw.take(before.len() as int) =~= before);
    assert(raw.skip((before.len() + placeholder.len()) as int) =~= after);
    coinbase::lemma_script_head_len(height);
    lemma_payout_len(value, miner_script, commitment);
    bytes::lemma_le_len(1, 4);
    bytes::lemma_le_len(0, 4);
    bytes::lemma_le_len(0xffff_ffff, 4);
    bytes::lemma_compact_size_len(coinbase::script_head(height).len() + 1 + placeholder.len());
    bytes::lemma_compact_size_len(view.outputs.len());
}

proof fn lemma_payout_len(value: u64, miner_script: Seq<u8>, commitment: Option<Seq<u8>>)
    ensures
        coinbase::outputs_bytes(
            coinbase::payout_outputs(value, miner_script, commitment),
        ).len() <= 34 + miner_script.len() + match commitment {
            Some(script) => script.len(),
            None => 0,
        },
{
    let outputs = coinbase::payout_outputs(value, miner_script, commitment);
    bytes::lemma_le_len(value as nat, 8);
    bytes::lemma_le_len(0, 8);
    bytes::lemma_compact_size_len(miner_script.len());
    reveal_with_fuel(coinbase::outputs_bytes, 3);
    match commitment {
        Some(script) => {
            bytes::lemma_compact_size_len(script.len());
            assert(outputs.drop_last() =~= seq![outputs[0]]);
        },
        None => {},
    }
}

fn find_first(raw: &Vec<u8>, pattern: &Vec<u8>) -> (found: Option<usize>)
    ensures
        match found {
            Some(pos) => coinbase::first_at(raw@, pattern@, pos as int),
            None => forall|p: int| !#[trigger] coinbase::occurs_at(raw@, pattern@, p),
        },
{
    let size: usize = raw.len();
    let width: usize = pattern.len();
    if size < width {
        return None;
    }
    let mut pos: usize = 0;
    let last: usize = size - width;
    loop
        invariant
            pos <= last,
            size == raw@.len(),
            width == pattern@.len(),
            last == size - width,
            forall|p: int| p < pos ==> !#[trigger] coinbase::occurs_at(raw@, pattern@, p),
        decreases last - pos,
    {
        let mut i: usize = 0;
        while i < width && raw[pos + i] == pattern[i]
            invariant
                i <= width,
                pos <= last,
                size == raw@.len(),
                width == pattern@.len(),
                last == size - width,
                forall|j: int| 0 <= j < i ==> raw@[pos + j] == pattern@[j],
            decreases width - i,
        {
            i = i + 1;
        }
        if i == width {
            assert(raw@.subrange(pos as int, (pos + pattern@.len()) as int) =~= pattern@);
            return Some(pos);
        }
        proof {
            if coinbase::occurs_at(raw@, pattern@, pos as int) {
                let window = raw@.subrange(pos as int, (pos + pattern@.len()) as int);
                assert(window[i as int] == raw@[pos + i]);
            }
        }
        if pos == last {
            return None;
        }
        pos = pos + 1;
    }
}

fn split_at(raw: Vec<u8>, placeholder: &Vec<u8>) -> (parts: CoinbaseParts)
    requires
        exists|pos: int| coinbase::occurs_at(raw@, placeholder@, pos),
    ensures
        coinbase::first_at(raw@, placeholder@, parts.coinb1@.len() as int),
        parts.coinb1@ == raw@.take(parts.coinb1@.len() as int),
        parts.coinb2@ == raw@.skip((parts.coinb1@.len() + placeholder@.len()) as int),
{
    match find_first(&raw, placeholder) {
        Some(pos) => {
            let size: usize = raw.len();
            let coinb1: Vec<u8> = vstd::slice::slice_to_vec(
                vstd::slice::slice_subrange(raw.as_slice(), 0, pos),
            );
            let coinb2: Vec<u8> = vstd::slice::slice_to_vec(
                vstd::slice::slice_subrange(raw.as_slice(), pos + placeholder.len(), size),
            );
            assert(coinb1@ =~= raw@.take(pos as int));
            assert(coinb2@ =~= raw@.skip((pos + placeholder@.len()) as int));
            CoinbaseParts { coinb1, coinb2 }
        },
        None => {
            assert(false);
            CoinbaseParts { coinb1: raw, coinb2: Vec::new() }
        },
    }
}

/// Find the extranonce placeholder in the serialized coinbase and split.
pub fn split_at_extranonce(raw: Vec<u8>) -> (parts: CoinbaseParts)
    requires
        exists|pos: int| coinbase::occurs_at(raw@, extranonce_placeholder(), pos),
    ensures
        coinbase::first_at(raw@, extranonce_placeholder(), parts.coinb1@.len() as int),
        parts.coinb1@ == raw@.take(parts.coinb1@.len() as int),
        parts.coinb2@ == raw@.skip((parts.coinb1@.len() + 8) as int),
        raw@ == parts.coinb1@ + seq![
            0xdeu8,
            0xadu8,
            0xbeu8,
            0xefu8,
            0xcau8,
            0xfeu8,
            0xbau8,
            0xbeu8,
        ] + parts.coinb2@,
{
    let ghost whole = raw@;
    let placeholder: Vec<u8> = placeholder_bytes();
    let parts: CoinbaseParts = split_at(raw, &placeholder);
    proof {
        let at = parts.coinb1@.len() as int;
        assert(whole =~= whole.take(at) + whole.subrange(at, at + 8) + whole.skip(at + 8));
    }
    parts
}

/// Find the extended channel's placeholder in the serialized coinbase and split.
pub fn split_at_sv2_extranonce(raw: Vec<u8>) -> (parts: CoinbaseParts)
    requires
        exists|pos: int| coinbase::occurs_at(raw@, sv2_extranonce_placeholder(), pos),
    ensures
        coinbase::first_at(raw@, sv2_extranonce_placeholder(), parts.coinb1@.len() as int),
        parts.coinb1@ == raw@.take(parts.coinb1@.len() as int),
        parts.coinb2@ == raw@.skip((parts.coinb1@.len() + SV2_EXTRANONCE_TOTAL) as int),
        raw@.len() == parts.coinb1@.len() + 36 + parts.coinb2@.len(),
        forall|i: int|
            parts.coinb1@.len() <= i < parts.coinb1@.len() + 36 ==> #[trigger] raw@[i] == 0xcc,
{
    let ghost whole = raw@;
    let placeholder: Vec<u8> = sv2_placeholder_bytes();
    let parts: CoinbaseParts = split_at(raw, &placeholder);
    proof {
        let at = parts.coinb1@.len() as int;
        assert forall|i: int| at <= i < at + 36 implies #[trigger] whole[i] == 0xcc by {
            assert(whole.subrange(at, at + 36)[i - at] == whole[i]);
        }
    }
    parts
}

// ── Merkle branch ──────────────────────────────────────────────────────────────

/// Whether `text` is a 32-byte hash in hexadecimal.
pub open spec fn is_hash_text(text: Seq<char>) -> bool {
    hexadecimal::decoded(text) matches Some(data) && data.len() == 32
}

/// The hash that a display-format hash text stands for, in internal byte order.
pub open spec fn internal_hash(text: Seq<char>) -> Seq<u8> {
    hexadecimal::decoded(text)->0.reverse()
}

/// The transaction hashes of a template, in internal byte order.
pub open spec fn tx_hashes(transactions: Seq<TemplateTransaction>) -> Seq<Seq<u8>> {
    Seq::new(transactions.len(), |i: int| internal_hash(transactions[i].txid@))
}

/// Whether every transaction id is a hash text.
pub open spec fn txids_ok(transactions: Seq<TemplateTransaction>) -> bool {
    forall|i: int| 0 <= i < transactions.len() ==> is_hash_text((#[trigger] transactions[i]).txid@)
}

/// Hash arrays as byte strings.
pub open spec fn hash_views(hashes: Seq<[u8; 32]>) -> Seq<Seq<u8>> {
    hashes.map_values(|h: [u8; 32]| h@)
}

/// The 32 bytes of `data` as an array.
pub fn to_array32(data: &Vec<u8>) -> (out: [u8; 32])
    requires
        data@.len() == 32,
    ensures
        out@ == data@,
{
    let mut out: [u8; 32] = [0u8; 32];
    let mut i: usize = 0;
    while i < 32
        invariant
            i <= 32,
            data@.len() == 32,
            forall|j: int| 0 <= j < i ==> out@[j] == data@[j],
        decreases 32 - i,
    {
        out[i] = data[i];
        i = i + 1;
    }
    assert(out@ =~= data@);
    out
}

/// The double SHA-256 of two hashes side by side.
pub fn sha256d_pair(a: &[u8; 32], b: &[u8; 32]) -> (hash: [u8; 32])
    ensures
        hash@ == merkle::sha256d(a@ + b@),
{
    let mut data: Vec<u8> = Vec::new();
    data.extend_from_slice(a.as_slice());
    data.extend_from_slice(b.as_slice());
    assert(data@ =~= a@ + b@);
    merkle::hash_sha256d(data.as_slice())
}

/// Build the sibling hashes at each merkle level needed to compute the merkle
/// root from the coinbase hash.
///
/// The coinbase is not among them: each miner computes its own.
pub fn build_merkle_branch(transactions: &[TemplateTransaction]) -> (branch: Vec<[u8; 32]>)
    requires
        txids_ok(transactions@),
    ensures
        hash_views(branch@) == merkle::branch(tx_hashes(transactions@)),
{
    let mut level: Vec<[u8; 32]> = Vec::new();
    let mut k: usize = 0;
    while k < transactions.len()
        invariant
            k <= transactions@.len(),
            txids_ok(transactions@),
            level@.len() == k,
            forall|j: int| 0 <= j < k ==> (#[trigger] level@[j])@ == internal_hash(
                transactions@[j].txid@,
            ),
        decreases transactions@.len() - k,
    {
        assert(is_hash_text(transactions@[k as int].txid@));
        match hexadecimal::decode(transactions[k].txid.as_str()) {
            Some(data) => {
                let internal: Vec<u8> = bytes::reversed(&data);
                level.push(to_array32(&internal));
            },
            None => {
                assert(false);
            },
        }
        k = k + 1;
    }
    assert(hash_views(level@) =~= tx_hashes(transactions@));
    let mut branch: Vec<[u8; 32]> = Vec::new();
    while level.len() > 0
        invariant
            hash_views(branch@) + merkle::branch(hash_views(level@)) == merkle::branch(
                tx_hashes(transactions@),
            ),
        decreases level@.len(),
    {
        let ghost before = hash_views(level@);
        let ghost done = hash_views(branch@);
        branch.push(level[0]);
        let mut next: Vec<[u8; 32]> = Vec::new();
        let mut i: usize = 1;
        while i < level.len()
            invariant
                1 <= level@.len(),
                1 <= i <= level@.len(),
                i % 2 == 1 || i == level@.len(),
                next@.len() == i / 2,
                before == hash_views(level@),
                forall|j: int|
                    0 <= j < next@.len() ==> (#[trigger] next@[j])@ == merkle::pair_up(
                        before.drop_first(),
                    )[j],
            decreases level@.len() - i,
        {
            let a: [u8; 32] = level[i];
            let b: [u8; 32] = if i + 1 < level.len() {
                level[i + 1]
            } else {
                level[i]
            };
            let pair: [u8; 32] = sha256d_pair(&a, &b);
            next.push(pair);
            proof {
                let rest = before.drop_first();
                let j = (i - 1) / 2;
                assert(rest[2 * j] == a@);
                assert(merkle::pair_up(rest)[j] == pair@);
            }
            i = if level.len() - i > 1 {
                i + 2
            } else {
                level.len()
            };
        }
        proof {
            let rest = before.drop_first();
            assert(hash_views(next@) =~= merkle::pair_up(rest));
            assert(hash_views(branch@) =~= done + seq![before[0]]);
            assert(done + (seq![before[0]] + merkle::branch(merkle::pair_up(rest))) =~= done
                + seq![before[0]] + merkle::branch(merkle::pair_up(rest)));
        }
        level = next;
    }
    assert(merkle::branch(hash_views(level@)) =~= Seq::empty());
    assert(hash_views(branch@) + Seq::<Seq<u8>>::empty() =~= hash_views(branch@));
    branch
}

/// The leaves behind the coinbase are the transaction ids, each in internal byte order,
/// that is its text's bytes from the last to the first: the branch is that of these
/// leaves, and from any coinbase hash it leads to the root over it and them.
pub proof fn leaves_are_the_txids(
    transactions: Seq<TemplateTransaction>,
    leaves: Seq<Seq<u8>>,
    coinbase: Seq<u8>,
)
    requires
        leaves.len() == transactions.len(),
        forall|i: int|
            0 <= i < leaves.len() ==> #[trigger] leaves[i] == hexadecimal::decoded(
                transactions[i].txid@,
            )->0.reverse(),
    ensures
        merkle::branch(tx_hashes(transactions)) == merkle::branch(leaves),
        merkle::climb(coinbase, merkle::branch(tx_hashes(transactions))) == merkle::root(
            seq![coinbase] + leaves,
        ),
{
    assert(tx_hashes(transactions) =~= leaves);
    merkle::branch_gives_the_root(coinbase, leaves);
}

/// Templates whose transactions agree in their ids have one branch, whatever else is
/// said of the transactions.
pub proof fn branch_depends_on_txids_alone(
    a: Seq<TemplateTransaction>,
    b: Seq<TemplateTransaction>,
)
    requires
        a.len() == b.len(),
        forall|i: int| 0 <= i < a.len() ==> (#[trigger] a[i]).txid@ == b[i].txid@,
    ensures
        merkle::branch(tx_hashes(a)) == merkle::branch(tx_hashes(b)),
{
    assert(tx_hashes(a) =~= tx_hashes(b));
}

// ── Address helpers ────────────────────────────────────────────────────────────

/// The scriptPubKey of an address text, as `bitcoin`'s `Address` parser and
/// `script_pubkey` give it; none where the text is no address.
pub uninterp spec fn address_script(address: Seq<char>) -> Option<Seq<u8>>;

/// The error of `bitcoin`'s address parser.
#[verifier::external_type_specification]
#[verifier::external_body]
pub struct ExAddressParseError(bitcoin::address::ParseError);

/// `bitcoin::Address::from_str`, any network, and `Address::script_pubkey`. Both
/// depend on the text alone. A script is at most 42 bytes: the longest is a
/// witness program's, two bytes before at most 40.
#[verifier::external_body]
fn parse_address(address: &str) -> (out: Result<Vec<u8>, bitcoin::address::ParseError>)
    ensures
        match out {
            Ok(script) => address_script(address@) == Some(script@) && script@.len() <= 42,
            Err(_) => address_script(address@) is None,
        },
{
    let parsed: bitcoin::Address<bitcoin::address::NetworkUnchecked> = address.parse()?;
    Ok(parsed.assume_checked().script_pubkey().into_bytes())
}

/// Parse any Bitcoin address and return its `scriptPubKey`.
pub fn script_from_address(address: &str) -> (out: Result<Vec<u8>, InvalidAddress>)
    ensures
        match out {
            Ok(script) => address_script(address@) == Some(script@) && script@.len() <= 42,
            Err(_) => address_script(address@) is None,
        },
{
    match parse_address(address) {
        Ok(script) => Ok(script),
        Err(_) => Err(InvalidAddress),
    }
}

/// Parse the witness commitment hex from `getblocktemplate` into a scriptPubKey.
pub fn witness_commitment_script(hex: &str) -> (script: Vec<u8>)
    requires
        hexadecimal::decoded(hex@) is Some,
    ensures
        Some(script@) == hexadecimal::decoded(hex@),
{
    match hexadecimal::decode(hex) {
        Some(script) => script,
        None => {
            assert(false);
            Vec::new()
        },
    }
}

// ── Coinbase from a distributed template ───────────────────────────────────────

/// The piece before the extranonce, from the fields of a distributed template.
pub open spec fn tdp_before(script_prefix: Seq<u8>, version: u32, use_segwit: bool) -> Seq<u8> {
    let marker: Seq<u8> = if use_segwit {
        seq![0x00u8, 0x01u8]
    } else {
        Seq::empty()
    };
    bytes::le(version as nat, 4) + marker + coinbase::input_head(
        script_prefix.len() + SV2_EXTRANONCE_TOTAL as nat,
    ) + script_prefix
}

/// The piece behind the extranonce, from the fields of a distributed template.
pub open spec fn tdp_after(
    sequence: u32,
    payout: coinbase::OutputView,
    outputs_count: u32,
    outputs: Seq<u8>,
    lock_time: u32,
    use_segwit: bool,
) -> Seq<u8> {
    let witness: Seq<u8> = if use_segwit {
        coinbase::reserved_witness()
    } else {
        Seq::empty()
    };
    bytes::le(sequence as nat, 4) + bytes::compact_size((1 + outputs_count) as nat)
        + coinbase::output_bytes(payout) + outputs + witness + bytes::le(lock_time as nat, 4)
}

proof fn lemma_outputs_from_the_front(
    first: coinbase::OutputView,
    rest: Seq<coinbase::OutputView>,
)
    ensures
        coinbase::outputs_bytes(seq![first] + rest) == coinbase::output_bytes(first)
            + coinbase::outputs_bytes(rest),
    decreases rest.len(),
{
    let all = seq![first] + rest;
    if rest.len() == 0 {
        assert(all.drop_last() =~= Seq::empty());
        assert(coinbase::outputs_bytes(all.drop_last()) == Seq::<u8>::empty());
        assert(Seq::<u8>::empty() + coinbase::output_bytes(first) =~= coinbase::output_bytes(first)
            + Seq::<u8>::empty());
    } else {
        lemma_outputs_from_the_front(first, rest.drop_last());
        assert(all.drop_last() =~= seq![first] + rest.drop_last());
        let front = coinbase::output_bytes(first);
        let middle = coinbase::outputs_bytes(rest.drop_last());
        let last = coinbase::output_bytes(rest.last());
        assert(front + middle + last =~= front + (middle + last));
    }
}

/// The two pieces built from a distributed template, around any extranonce of the
/// full size, are the serialized transaction whose script ends in it: the payout
/// comes first, then the outputs of the template.
pub proof fn tdp_pieces_make_the_transaction(
    script_prefix: Seq<u8>,
    extranonce: Seq<u8>,
    version: u32,
    sequence: u32,
    payout: coinbase::OutputView,
    others: Seq<coinbase::OutputView>,
    lock_time: u32,
    use_segwit: bool,
)
    requires
        extranonce.len() == SV2_EXTRANONCE_TOTAL,
        others.len() <= u32::MAX,
    ensures
        ({
            let tx = coinbase::CoinbaseView {
                version,
                script_sig: script_prefix + extranonce,
                sequence,
                outputs: seq![payout] + others,
                lock_time,
            };
            tdp_before(script_prefix, version, use_segwit) + extranonce + tdp_after(
                sequence,
                payout,
                others.len() as u32,
                coinbase::outputs_bytes(others),
                lock_time,
                use_segwit,
            ) == if use_segwit {
                coinbase::segwit_bytes(tx)
            } else {
                coinbase::legacy_bytes(tx)
            }
        }),
{
    let tx = coinbase::CoinbaseView {
        version,
        script_sig: script_prefix + extranonce,
        sequence,
        outputs: seq![payout] + others,
        lock_time,
    };
    lemma_outputs_from_the_front(payout, others);
    let pieces = tdp_before(script_prefix, version, use_segwit) + extranonce + tdp_after(
        sequence,
        payout,
        others.len() as u32,
        coinbase::outputs_bytes(others),
        lock_time,
        use_segwit,
    );
    if use_segwit {
        assert(pieces =~= coinbase::segwit_bytes(tx));
    } else {
        assert(pieces =~= coinbase::legacy_bytes(tx));
    }
}

/// What the two pieces of a distributed template say, read from their bytes. Before the
/// extranonce: the version, the marker and the flag of a witness where it is asked for,
/// one input that spends nothing, the size of its script with 36 bytes of extranonce,
/// and the script's prefix. Behind it: the sequence number, one more output than the
/// template's, the payout of the whole value to the miner, the template's outputs, the
/// witness where it is asked for, and the lock time.
pub proof fn tdp_pieces_read_back(
    script_prefix: Seq<u8>,
    version: u32,
    sequence: u32,
    value: u64,
    miner_script: Seq<u8>,
    outputs_count: u32,
    outputs: Seq<u8>,
    lock_time: u32,
    use_segwit: bool,
)
    requires
        script_prefix.len() + 36 <= u64::MAX,
        miner_script.len() <= u64::MAX,
    ensures
        ({
            let payout = coinbase::OutputView { value, script_pubkey: miner_script };
            let head = tdp_before(script_prefix, version, use_segwit);
            let tail = tdp_after(sequence, payout, outputs_count, outputs, lock_time, use_segwit);
            let at: int = if use_segwit {
                6
            } else {
                4
            };
            let end: int = tail.len() - 4;
            let rest: int = if use_segwit {
                end - 34
            } else {
                end
            };
            &&& bytes::le_value(head.subrange(0, 4)) == version
            &&& use_segwit ==> head[4] == 0 && head[5] == 1
            &&& head[at] == 1
            &&& forall|i: int| at + 1 <= i < at + 33 ==> head[i] == 0
            &&& forall|i: int| at + 33 <= i < at + 37 ==> head[i] == 0xff
            &&& bytes::compact_size_at_front(head.skip(at + 37)) matches Some((len, width)) && len
                == script_prefix.len() + 36 && head.skip(at + 37 + width) == script_prefix
            &&& bytes::le_value(tail.subrange(0, 4)) == sequence
            &&& bytes::compact_size_at_front(tail.skip(4)) matches Some((count, width)) && count
                == 1 + outputs_count && bytes::le_value(
                tail.subrange(4int + width, 12int + width),
            ) == value && (bytes::compact_size_at_front(tail.skip(12int + width)) matches Some(
                (len, more),
            ) && len == miner_script.len() && tail.subrange(12int + width + more, rest) == miner_script
                + outputs)
            &&& use_segwit ==> tail[rest] == 1 && tail[rest + 1] == 32 && forall|i: int|
                rest + 2 <= i < end ==> tail[i] == 0
            &&& bytes::le_value(tail.subrange(end, end + 4)) == lock_time
        }),
{
    let payout = coinbase::OutputView { value, script_pubkey: miner_script };
    let head = tdp_before(script_prefix, version, use_segwit);
    let tail = tdp_after(sequence, payout, outputs_count, outputs, lock_time, use_segwit);
    bytes::lemma_pow256();
    bytes::lemma_le_len(version as nat, 4);
    bytes::lemma_le_round_trip(version as nat, 4);
    let at: int = if use_segwit {
        6
    } else {
        4
    };
    let size = bytes::compact_size(script_prefix.len() + 36);
    assert(head.subrange(0, 4) =~= bytes::le(version as nat, 4));
    assert(head.skip(at + 37) =~= size + script_prefix);
    bytes::size_prefix_reads_back(script_prefix.len() + 36, script_prefix);
    assert(head.skip(at + 37 + size.len()) =~= script_prefix);
    lemma_tdp_tail_reads_back(
        sequence,
        value,
        miner_script,
        outputs_count,
        outputs,
        lock_time,
        use_segwit,
    );
}

proof fn lemma_tdp_tail_reads_back(
    sequence: u32,
    value: u64,
    miner_script: Seq<u8>,
    outputs_count: u32,
    outputs: Seq<u8>,
    lock_time: u32,
    use_segwit: bool,
)
    requires
        miner_script.len() <= u64::MAX,
    ensures
        ({
            let payout = coinbase::OutputView { value, script_pubkey: miner_script };
            let tail = tdp_after(sequence, payout, outputs_count, outputs, lock_time, use_segwit);
            let end: int = tail.len() - 4;
            let rest: int = if use_segwit {
                end - 34
            } else {
                end
            };
            &&& bytes::le_value(tail.subrange(0, 4)) == sequence
            &&& bytes::compact_size_at_front(tail.skip(4)) matches Some((count, width)) && count
                == 1 + outputs_count && bytes::le_value(
                tail.subrange(4int + width, 12int + width),
            ) == value && (bytes::compact_size_at_front(tail.skip(12int + width)) matches Some(
                (len, more),
            ) && len == miner_script.len() && tail.subrange(12int + width + more, rest) == miner_script
                + outputs)
            &&& use_segwit ==> tail[rest] == 1 && tail[rest + 1] == 32 && forall|i: int|
                rest + 2 <= i < end ==> tail[i] == 0
            &&& bytes::le_value(tail.subrange(end, end + 4)) == lock_time
        }),
{
    let payout = coinbase::OutputView { value, script_pubkey: miner_script };
    let tail = tdp_after(sequence, payout, outputs_count, outputs, lock_time, use_segwit);
    let witness: Seq<u8> = if use_segwit {
        coinbase::reserved_witness()
    } else {
        Seq::empty()
    };
    let count = bytes::compact_size((1 + outputs_count) as nat);
    let size = bytes::compact_size(miner_script.len());
    let last = bytes::le(lock_time as nat, 4);
    let amount = bytes::le(value as nat, 8);
    let first = bytes::le(sequence as nat, 4);
    bytes::lemma_pow256();
    bytes::lemma_le_len(sequence as nat, 4);
    bytes::lemma_le_len(lock_time as nat, 4);
    bytes::lemma_le_len(value as nat, 8);
    bytes::lemma_le_round_trip(sequence as nat, 4);
    bytes::lemma_le_round_trip(lock_time as nat, 4);
    bytes::lemma_le_round_trip(value as nat, 8);
    bytes::lemma_compact_size_len((1 + outputs_count) as nat);
    bytes::lemma_compact_size_len(miner_script.len());
    let behind = miner_script + outputs + witness + last;
    lemma_parts_in_a_row(first, count, amount, size, miner_script, outputs, witness, last);
    assert(tail =~= first + count + amount + size + miner_script + outputs + witness + last);
    bytes::size_prefix_reads_back((1 + outputs_count) as nat, amount + size + behind);
    bytes::size_prefix_reads_back(miner_script.len(), behind);
    if use_segwit {
        let end = tail.len() - 4;
        let rest = end - 34;
        assert forall|i: int| 0 <= i < 34 implies tail[rest + i] == #[trigger] witness[i] by {
            assert(tail.subrange(rest, end)[i] == tail[rest + i]);
        }
        assert(tail[rest] == witness[0]);
        assert(tail[rest + 1] == witness[1]);
        assert forall|i: int| rest + 2 <= i < end implies tail[i] == 0 by {
            assert(tail[rest + (i - rest)] == witness[i - rest]);
        }
    }
}

proof fn lemma_parts_in_a_row(
    a: Seq<u8>,
    b: Seq<u8>,
    c: Seq<u8>,
    d: Seq<u8>,
    e: Seq<u8>,
    f: Seq<u8>,
    g: Seq<u8>,
    h: Seq<u8>,
)
    requires
        a.len() == 4,
        c.len() == 8,
        h.len() == 4,
    ensures
        ({
            let all = a + b + c + d + e + f + g + h;
            let w = b.len() as int;
            let end = all.len() - 4;
            &&& all.subrange(0, 4) == a
            &&& all.skip(4) == b + (c + d + (e + f + g + h))
            &&& all.subrange(4 + w, 12 + w) == c
            &&& all.skip(12 + w) == d + (e + f + g + h)
            &&& all.subrange(12 + w + d.len(), end - g.len()) == e + f
            &&& all.subrange(end - g.len(), end) == g
            &&& all.subrange(end, end + 4) == h
        }),
{
    let all = a + b + c + d + e + f + g + h;
    let w = b.len() as int;
    let end = all.len() - 4;
    assert(all.subrange(0, 4) =~= a);
    assert(all.skip(4) =~= b + (c + d + (e + f + g + h)));
    assert(all.subrange(4 + w, 12 + w) =~= c);
    assert(all.skip(12 + w) =~= d + (e + f + g + h));
    assert(all.subrange(12 + w + d.len(), end - g.len()) =~= e + f);
    assert(all.subrange(end - g.len(), end) =~= g);
    assert(all.subrange(end, end + 4) =~= h);
}

/// Build `coinbase_tx_prefix` / `coinbase_tx_suffix` for `NewExtendedMiningJob`
/// from the fields of a `NewTemplate` of the Template Distribution Protocol.
///
/// Layout of the assembled coinbase transaction:
/// ```text
/// coinbase_tx_prefix
///     tx_version (4 B LE)  |  varint(1)  |  outpoint (36 B)
///     varint(script_len)   |  coinbase_script_prefix
/// ── extranonce goes here (SV2_EXTRANONCE_TOTAL bytes) ──
/// coinbase_tx_suffix
///     input_sequence (4 B LE)
///     varint(1 + coinbase_tx_outputs_count)
///     pool payout output (bitcoin serialization)
///     coinbase_tx_outputs_bytes  (witness commitment, etc. from the template)
///     locktime (4 B LE)
/// ```
/// With `use_segwit` a marker and a flag follow the version, and the input's
/// witness, one item of 32 zero bytes, precedes the lock time.
pub fn build_sv2_coinbase_from_tdp(
    coinbase_script_prefix: &[u8],
    coinbase_tx_version: u32,
    coinbase_tx_input_sequence: u32,
    coinbase_tx_value_remaining: u64,
    coinbase_tx_outputs_count: u32,
    coinbase_tx_outputs_bytes: &[u8],
    coinbase_tx_locktime: u32,
    miner_script: Vec<u8>,
    use_segwit: bool,
) -> (parts: CoinbaseParts)
    requires
        coinbase_script_prefix@.len() + SV2_EXTRANONCE_TOTAL <= usize::MAX,
        miner_script@.len() + 17 <= usize::MAX,
    ensures
        parts.coinb1@ == tdp_before(coinbase_script_prefix@, coinbase_tx_version, use_segwit),
        parts.coinb2@ == tdp_after(
            coinbase_tx_input_sequence,
            coinbase::OutputView {
                value: coinbase_tx_value_remaining,
                script_pubkey: miner_script@,
            },
            coinbase_tx_outputs_count,
            coinbase_tx_outputs_bytes@,
            coinbase_tx_locktime,
            use_segwit,
        ),
{
    let script_total_len: usize = coinbase_script_prefix.len() + SV2_EXTRANONCE_TOTAL;
    let mut prefix: Vec<u8> = Vec::new();
    bytes::put_le(&mut prefix, coinbase_tx_version as u64, 4);
    if use_segwit {
        prefix.push(0x00);
        prefix.push(0x01);
    }
    prefix.push(1u8);
    push_run(&mut prefix, 0x00, 32);
    push_run(&mut prefix, 0xff, 4);
    write_varint(&mut prefix, script_total_len as u64);
    prefix.extend_from_slice(coinbase_script_prefix);
    assert(prefix@ =~= tdp_before(coinbase_script_prefix@, coinbase_tx_version, use_segwit));

    let mut suffix: Vec<u8> = Vec::new();
    bytes::put_le(&mut suffix, coinbase_tx_input_sequence as u64, 4);
    write_varint(&mut suffix, 1 + coinbase_tx_outputs_count as u64);
    let payout: TxOutput = TxOutput {
        value: coinbase_tx_value_remaining,
        script_pubkey: miner_script,
    };
    proof {
        bytes::lemma_le_len(payout@.value as nat, 8);
        bytes::lemma_compact_size_len(payout@.script_pubkey.len());
    }
    let payout_bytes: Vec<u8> = coinbase::serialize_output(&payout);
    suffix.extend_from_slice(payout_bytes.as_slice());
    suffix.extend_from_slice(coinbase_tx_outputs_bytes);
    if use_segwit {
        suffix.push(0x01);
        suffix.push(0x20);
        push_run(&mut suffix, 0x00, 32);
    }
    bytes::put_le(&mut suffix, coinbase_tx_locktime as u64, 4);
    assert(suffix@ =~= tdp_after(
        coinbase_tx_input_sequence,
        payout@,
        coinbase_tx_outputs_count,
        coinbase_tx_outputs_bytes@,
        coinbase_tx_locktime,
        use_segwit,
    ));
    CoinbaseParts { coinb1: prefix, coinb2: suffix }
}

fn push_run(buf: &mut Vec<u8>, b: u8, n: usize)
    ensures
        final(buf)@ == old(buf)@ + coinbase::run(b, n as nat),
{
    let ghost start = buf@;
    let mut i: usize = 0;
    while i < n
        invariant
            i <= n,
            buf@ == start + coinbase::run(b, i as nat),
        decreases n - i,
    {
        buf.push(b);
        i = i + 1;
        assert(buf@ =~= start + coinbase::run(b, i as nat));
    }
    assert(start + coinbase::run(b, 0) =~= start);
}

/// Appends Bitcoin's variable-length size.
pub fn write_varint(buf: &mut Vec<u8>, n: u64)
    ensures
        final(buf)@ == old(buf)@ + bytes::compact_size(n as nat),
{
    let ghost start = buf@;
    if n < 0xfd {
        bytes::put_le(buf, n, 1);
    } else if n <= 0xffff {
        buf.push(0xfd);
        bytes::put_le(buf, n, 2);
    } else if n <= 0xffff_ffff {
        buf.push(0xfe);
        bytes::put_le(buf, n, 4);
    } else {
        buf.push(0xff);
        bytes::put_le(buf, n, 8);
    }
    assert(buf@ =~= start + bytes::compact_size(n as nat));
}

// ── StratumJob assembly ────────────────────────────────────────────────────────

/// The script of the template's witness commitment.
pub open spec fn commitment_script(template: BlockTemplate) -> Option<Seq<u8>> {
    match template.default_witness_commitment {
        Some(text) => hexadecimal::decoded(text@),
        None => None,
    }
}

/// Whether the witness commitment, where there is one, is hexadecimal.
pub open spec fn commitment_ok(template: BlockTemplate) -> bool {
    template.default_witness_commitment matches Some(text) ==> hexadecimal::decoded(text@) is Some
}

/// Whether a coinbase and a merkle branch can be built from the template.
pub open spec fn coinbase_inputs_ok(template: BlockTemplate) -> bool {
    commitment_ok(template) && txids_ok(template.transactions@)
}

/// Whether a job can be built from the template.
pub open spec fn job_inputs_ok(template: BlockTemplate) -> bool {
    coinbase_inputs_ok(template) && hexadecimal::decoded(template.previousblockhash@) is Some
}

/// A coinbase and a branch can be built exactly where the witness commitment, if there is
/// one, is hexadecimal and every transaction id is the hexadecimal of 32 bytes; a job,
/// where besides the previous hash is hexadecimal.
pub proof fn what_a_job_needs(template: BlockTemplate)
    ensures
        ({
            let readable = (template.default_witness_commitment is Some ==> hexadecimal::decoded(
                template.default_witness_commitment->0@,
            ) is Some) && forall|i: int|
                0 <= i < template.transactions@.len() ==> {
                    let id = hexadecimal::decoded((#[trigger] template.transactions@[i]).txid@);
                    id is Some && id->0.len() == 32
                };
            &&& coinbase_inputs_ok(template) <==> readable
            &&& job_inputs_ok(template) <==> readable && hexadecimal::decoded(
                template.previousblockhash@,
            ) is Some
        }),
{
}

/// Hashes and texts are seen each in its place.
pub proof fn lists_are_seen_as_they_are(hashes: Seq<[u8; 32]>, texts: Seq<String>, i: int)
    ensures
        hash_views(hashes).len() == hashes.len(),
        0 <= i < hashes.len() ==> hash_views(hashes)[i] == hashes[i]@,
        text_views(texts).len() == texts.len(),
        0 <= i < texts.len() ==> text_views(texts)[i] == texts[i]@,
{
}

pub open spec fn text_views(texts: Seq<String>) -> Seq<Seq<char>> {
    texts.map_values(|t: String| t@)
}

/// Whether `job` is the template's job for a miner paid by `script`.
pub open spec fn is_job(
    job: StratumJob,
    template: BlockTemplate,
    script: Seq<u8>,
    job_id: Seq<char>,
    clean_jobs: bool,
) -> bool {
    &&& job.job_id@ == job_id
    &&& job.prevhash@ == hexadecimal::encoded(
        hexadecimal::decoded(template.previousblockhash@)->0.reverse(),
    )
    &&& job.coinb1@ == hexadecimal::encoded(coinbase::before_extranonce(template.height, 8))
    &&& job.coinb2@ == hexadecimal::encoded(
        coinbase::after_extranonce(
            template.coinbasevalue as u64,
            script,
            commitment_script(template),
        ),
    )
    &&& text_views(job.merkle_branch@) == merkle::branch(
        tx_hashes(template.transactions@),
    ).map_values(|h: Seq<u8>| hexadecimal::encoded(h))
    &&& job.version@ == hexadecimal::encoded(bytes::be(template.version as nat, 4))
    &&& job.nbits@ == template.bits@
    &&& job.ntime@ == hexadecimal::encoded(bytes::be(template.curtime as nat, 4))
    &&& job.clean_jobs == clean_jobs
}

/// What a miner computes from a job is a block of the template that pays the
/// miner: the two coinbase pieces around its extranonce are the serialized
/// coinbase, and the branch climbed from the coinbase hash is the merkle root over
/// the coinbase and all transactions of the template.
pub proof fn job_is_a_block_that_pays_the_miner(
    job: StratumJob,
    template: BlockTemplate,
    script: Seq<u8>,
    job_id: Seq<char>,
    clean_jobs: bool,
    extranonce: Seq<u8>,
)
    requires
        is_job(job, template, script, job_id, clean_jobs),
        extranonce.len() == EXTRANONCE1_SIZE + EXTRANONCE2_SIZE,
    ensures
        ({
            let tx = coinbase::legacy_bytes(
                coinbase::coinbase_view(
                    template.height,
                    extranonce,
                    template.coinbasevalue as u64,
                    script,
                    commitment_script(template),
                ),
            );
            let siblings = job.merkle_branch@.map_values(
                |t: String| hexadecimal::decoded(t@)->0,
            );
            &&& hexadecimal::decoded(job.coinb1@) is Some
            &&& hexadecimal::decoded(job.coinb2@) is Some
            &&& hexadecimal::decoded(job.coinb1@)->0 + extranonce + hexadecimal::decoded(
                job.coinb2@,
            )->0 == tx
            &&& merkle::climb(merkle::sha256d(tx), siblings) == merkle::root(
                seq![merkle::sha256d(tx)] + tx_hashes(template.transactions@),
            )
        }),
{
    let value = template.coinbasevalue as u64;
    let commitment = commitment_script(template);
    let tx = coinbase::legacy_bytes(
        coinbase::coinbase_view(template.height, extranonce, value, script, commitment),
    );
    coinbase::pieces_make_the_transaction(template.height, extranonce, value, script, commitment);
    hexadecimal::decoding_undoes_encoding(coinbase::before_extranonce(template.height, 8));
    hexadecimal::decoding_undoes_encoding(
        coinbase::after_extranonce(value, script, commitment),
    );
    let hashes = tx_hashes(template.transactions@);
    let branch = merkle::branch(hashes);
    let siblings = job.merkle_branch@.map_values(|t: String| hexadecimal::decoded(t@)->0);
    assert(text_views(job.merkle_branch@).len() == branch.len());
    assert forall|i: int| 0 <= i < siblings.len() implies siblings[i] == branch[i] by {
        hexadecimal::decoding_undoes_encoding(branch[i]);
        assert(text_views(job.merkle_branch@)[i] == hexadecimal::encoded(branch[i]));
    }
    assert(siblings =~= branch);
    merkle::branch_gives_the_root(merkle::sha256d(tx), hashes);
}

/// What a job says is the template's: read back from its texts, the version and the time
/// are numbers, most significant byte first; the previous hash is the template's text's
/// bytes from the last to the first; the bits are the template's text. The coinbase
/// pieces are those of the template's height, of its whole value and of its witness
/// commitment.
pub proof fn job_says_what_the_template_says(
    job: StratumJob,
    template: BlockTemplate,
    script: Seq<u8>,
    job_id: Seq<char>,
    clean_jobs: bool,
)
    requires
        is_job(job, template, script, job_id, clean_jobs),
    ensures
        ({
            let version = hexadecimal::decoded(job.version@)->0;
            let ntime = hexadecimal::decoded(job.ntime@)->0;
            &&& hexadecimal::decoded(job.version@) is Some && version.len() == 4
            &&& bytes::le_value(version.reverse()) == template.version
            &&& hexadecimal::decoded(job.ntime@) is Some && ntime.len() == 4
            &&& bytes::le_value(ntime.reverse()) == template.curtime
            &&& job.nbits@ == template.bits@
            &&& hexadecimal::decoded(job.prevhash@) == Some(
                hexadecimal::decoded(template.previousblockhash@)->0.reverse(),
            )
            &&& hexadecimal::decoded(job.coinb1@) == Some(
                coinbase::before_extranonce(template.height, 8),
            )
            &&& hexadecimal::decoded(job.coinb2@) == Some(
                coinbase::after_extranonce(
                    template.coinbasevalue as u64,
                    script,
                    match template.default_witness_commitment {
                        Some(text) => hexadecimal::decoded(text@),
                        None => None,
                    },
                ),
            )
            &&& job.job_id@ == job_id
            &&& job.clean_jobs == clean_jobs
        }),
{
    let version = bytes::be(template.version as nat, 4);
    let ntime = bytes::be(template.curtime as nat, 4);
    bytes::lemma_pow256();
    bytes::lemma_le_len(template.version as nat, 4);
    bytes::lemma_le_len(template.curtime as nat, 4);
    bytes::lemma_le_round_trip(template.version as nat, 4);
    bytes::lemma_le_round_trip(template.curtime as nat, 4);
    assert(version.reverse() =~= bytes::le(template.version as nat, 4));
    assert(ntime.reverse() =~= bytes::le(template.curtime as nat, 4));
    hexadecimal::decoding_undoes_encoding(version);
    hexadecimal::decoding_undoes_encoding(ntime);
    hexadecimal::decoding_undoes_encoding(
        hexadecimal::decoded(template.previousblockhash@)->0.reverse(),
    );
    hexadecimal::decoding_undoes_encoding(coinbase::before_extranonce(template.height, 8));
    hexadecimal::decoding_undoes_encoding(
        coinbase::after_extranonce(
            template.coinbasevalue as u64,
            script,
            commitment_script(template),
        ),
    );
}

/// The script of the template's witness commitment.
pub fn template_commitment(template: &BlockTemplate) -> (script: Option<Vec<u8>>)
    requires
        commitment_ok(*template),
    ensures
        script_view(script) == commitment_script(*template),
        script_len(script) * 2 <= usize::MAX,
{
    match &template.default_witness_commitment {
        Some(text) => {
            let chars: usize = text.as_str().unicode_len();
            let script: Vec<u8> = witness_commitment_script(text.as_str());
            assert(script@.len() == chars / 2);
            Some(script)
        },
        None => None,
    }
}

/// Whether a coinbase and a merkle branch can be built from the template: its
/// witness commitment is hexadecimal and its transaction ids are hashes.
pub fn check_coinbase_inputs(template: &BlockTemplate) -> (ok: bool)
    ensures
        ok == coinbase_inputs_ok(*template),
{
    match &template.default_witness_commitment {
        Some(text) => {
            if hexadecimal::decode(text.as_str()).is_none() {
                return false;
            }
        },
        None => {},
    }
    let mut i: usize = 0;
    while i < template.transactions.len()
        invariant
            i <= template.transactions@.len(),
            commitment_ok(*template),
            forall|j: int|
                0 <= j < i ==> is_hash_text((#[trigger] template.transactions@[j]).txid@),
        decreases template.transactions@.len() - i,
    {
        let ok: bool = match hexadecimal::decode(template.transactions[i].txid.as_str()) {
            Some(data) => data.len() == 32,
            None => false,
        };
        if !ok {
            assert(!is_hash_text(template.transactions@[i as int].txid@));
            return false;
        }
        i = i + 1;
    }
    true
}

fn encode_hashes(hashes: &Vec<[u8; 32]>) -> (texts: Vec<String>)
    ensures
        text_views(texts@) == hash_views(hashes@).map_values(
            |h: Seq<u8>| hexadecimal::encoded(h),
        ),
{
    let mut texts: Vec<String> = Vec::new();
    let mut i: usize = 0;
    while i < hashes.len()
        invariant
            i <= hashes@.len(),
            texts@.len() == i,
            forall|j: int|
                0 <= j < i ==> (#[trigger] texts@[j])@ == hexadecimal::encoded(hashes@[j]@),
        decreases hashes@.len() - i,
    {
        texts.push(hexadecimal::encode(hashes[i].as_slice()));
        i = i + 1;
    }
    assert(text_views(texts@) =~= hash_views(hashes@).map_values(
        |h: Seq<u8>| hexadecimal::encoded(h),
    ));
    texts
}

/// The template's job for the miner at `miner_address`.
pub fn build_stratum_job(
    template: &BlockTemplate,
    miner_address: &str,
    job_id: &str,
    clean_jobs: bool,
) -> (out: Result<StratumJob, InvalidAddress>)
    requires
        address_script(miner_address@) is Some ==> job_inputs_ok(*template),
    ensures
        match out {
            Ok(job) => address_script(miner_address@) matches Some(script) && is_job(
                job,
                *template,
                script,
                job_id@,
                clean_jobs,
            ),
            Err(_) => address_script(miner_address@) is None,
        },
{
    let miner_script: Vec<u8> = match script_from_address(miner_address) {
        Ok(script) => script,
        Err(e) => {
            return Err(e);
        },
    };
    let commitment: Option<Vec<u8>> = template_commitment(template);
    let parts: CoinbaseParts = build_coinbase_parts(
        template.height,
        template.coinbasevalue,
        miner_script,
        commitment,
    );
    let branch: Vec<[u8; 32]> = build_merkle_branch(template.transactions.as_slice());
    let prevhash: String = match hexadecimal::decode(template.previousblockhash.as_str()) {
        Some(data) => {
            let internal: Vec<u8> = bytes::reversed(&data);
            hexadecimal::encode(internal.as_slice())
        },
        None => {
            assert(false);
            String::new()
        },
    };
    let version: Vec<u8> = bytes::be_bytes(template.version as u64, 4);
    let ntime: Vec<u8> = bytes::be_bytes(template.curtime as u64, 4);
    Ok(
        StratumJob {
            job_id: job_id.to_owned(),
            prevhash,
            coinb1: hexadecimal::encode(parts.coinb1.as_slice()),
            coinb2: hexadecimal::encode(parts.coinb2.as_slice()),
            merkle_branch: encode_hashes(&branch),
            version: hexadecimal::encode(version.as_slice()),
            nbits: template.bits.clone(),
            ntime: hexadecimal::encode(ntime.as_slice()),
            clean_jobs,
        },
    )
}

/// The template's job for the miner, or nothing where the address is good and the
/// template's hexadecimal fields are not.
pub fn build_stratum_job_checked(
    template: &BlockTemplate,
    miner_address: &str,
    job_id: &str,
    clean_jobs: bool,
) -> (out: Option<Result<StratumJob, InvalidAddress>>)
    ensures
        match out {
            Some(Ok(job)) => address_script(miner_address@) matches Some(script) && is_job(
                job,
                *template,
                script,
                job_id@,
                clean_jobs,
            ),
            Some(Err(_)) => address_script(miner_address@) is None,
            None => address_script(miner_address@) is Some && !job_inputs_ok(*template),
        },
{
    if script_from_address(miner_address).is_ok() {
        if !check_coinbase_inputs(template) {
            return None;
        }
        if hexadecimal::decode(template.previousblockhash.as_str()).is_none() {
            return None;
        }
    }
    Some(build_stratum_job(template, miner_address, job_id, clean_jobs))
}

} // verus!
