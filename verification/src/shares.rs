//! Shares: what a submitted share is checked against, how it is answered, and the
//! block that it may be.
use crate::bytes;
use crate::coinbase;
use crate::db;
use crate::hexadecimal;
use crate::jobs;
use crate::jobs::SV2_EXTRANONCE2_SIZE;
use crate::merkle;
use crate::messages;
use crate::messages::SubmitSharesExtended;
use crate::node_ipc;
use crate::node_ipc::{RawTemplate, SubmitSolutionData};
use crate::rpc::{BlockTemplate, TemplateTransaction};
use crate::stratum_sv2;
use crate::stratum_sv2::{
    ChannelInfo, ConnectionState, ConnectionView, Effect, MessageError, Reply, SentJob, SentJobView,
    Template,
};
use vstd::prelude::*;

verus! {

broadcast use vstd::std_specs::hash::group_hash_axioms;

/// The code that a share of an unknown job is refused with.
pub const STALE_SHARE: &'static str = "stale-share";

/// The code that a share above its channel's target is refused with.
pub const DIFFICULTY_TOO_LOW: &'static str = "difficulty-too-low";

/// The coinbase that a share was found with: the job's pieces around the channel's
/// extranonce prefix and what the miner rolled behind it.
pub open spec fn share_coinbase(share: messages::SubmitView, job: SentJobView) -> Seq<u8> {
    job.coinbase_tx_prefix + stratum_sv2::extranonce_prefix(share.channel_id) + share.extranonce
        + job.coinbase_tx_suffix
}

/// A block header.
pub open spec fn header_bytes(
    version: u32,
    prev_hash: Seq<u8>,
    root: Seq<u8>,
    time: u32,
    nbits: u32,
    nonce: u32,
) -> Seq<u8> {
    bytes::le(version as nat, 4) + prev_hash + root + bytes::le(time as nat, 4) + bytes::le(
        nbits as nat,
        4,
    ) + bytes::le(nonce as nat, 4)
}

/// Every field of a header reads back from its bytes: the version, the previous hash, the
/// root, the time, the bits and the nonce, in this order and with nothing between them.
/// With a root of 32 bytes the header has 80.
pub proof fn header_reads_back(
    version: u32,
    prev_hash: Seq<u8>,
    root: Seq<u8>,
    time: u32,
    nbits: u32,
    nonce: u32,
)
    requires
        prev_hash.len() == 32,
    ensures
        ({
            let header = header_bytes(version, prev_hash, root, time, nbits, nonce);
            let end = header.len() as int;
            &&& end == 48 + root.len()
            &&& bytes::le_value(header.subrange(0, 4)) == version
            &&& header.subrange(4, 36) == prev_hash
            &&& header.subrange(36, end - 12) == root
            &&& bytes::le_value(header.subrange(end - 12, end - 8)) == time
            &&& bytes::le_value(header.subrange(end - 8, end - 4)) == nbits
            &&& bytes::le_value(header.subrange(end - 4, end)) == nonce
        }),
{
    let header = header_bytes(version, prev_hash, root, time, nbits, nonce);
    let end = header.len() as int;
    bytes::lemma_pow256();
    bytes::lemma_le_len(version as nat, 4);
    bytes::lemma_le_len(time as nat, 4);
    bytes::lemma_le_len(nbits as nat, 4);
    bytes::lemma_le_len(nonce as nat, 4);
    bytes::lemma_le_round_trip(version as nat, 4);
    bytes::lemma_le_round_trip(time as nat, 4);
    bytes::lemma_le_round_trip(nbits as nat, 4);
    bytes::lemma_le_round_trip(nonce as nat, 4);
    assert(header.subrange(0, 4) =~= bytes::le(version as nat, 4));
    assert(header.subrange(4, 36) =~= prev_hash);
    assert(header.subrange(36, end - 12) =~= root);
    assert(header.subrange(end - 12, end - 8) =~= bytes::le(time as nat, 4));
    assert(header.subrange(end - 8, end - 4) =~= bytes::le(nbits as nat, 4));
    assert(header.subrange(end - 4, end) =~= bytes::le(nonce as nat, 4));
}

/// Headers over the same block with different nonces, times or versions differ.
pub proof fn headers_differ_in_every_field(
    prev_hash: Seq<u8>,
    root: Seq<u8>,
    nbits: u32,
    version_a: u32,
    time_a: u32,
    nonce_a: u32,
    version_b: u32,
    time_b: u32,
    nonce_b: u32,
)
    requires
        prev_hash.len() == 32,
    ensures
        header_bytes(version_a, prev_hash, root, time_a, nbits, nonce_a) == header_bytes(
            version_b,
            prev_hash,
            root,
            time_b,
            nbits,
            nonce_b,
        ) <==> version_a == version_b && time_a == time_b && nonce_a == nonce_b,
{
    header_reads_back(version_a, prev_hash, root, time_a, nbits, nonce_a);
    header_reads_back(version_b, prev_hash, root, time_b, nbits, nonce_b);
}

/// The block header of a share.
pub open spec fn share_header(share: messages::SubmitView, job: SentJobView) -> Seq<u8> {
    header_bytes(
        share.version,
        job.prev_hash,
        merkle::climb(merkle::sha256d(share_coinbase(share, job)), job.merkle_path),
        share.ntime,
        job.nbits,
        share.nonce,
    )
}

/// The block hash of a share, in internal byte order.
pub open spec fn share_hash(share: messages::SubmitView, job: SentJobView) -> Seq<u8> {
    merkle::sha256d(share_header(share, job))
}

/// Whether a hash is at most a target, both numbers least significant byte first.
pub open spec fn meets(hash: Seq<u8>, target: Seq<u8>) -> bool {
    bytes::le_value(hash) <= bytes::le_value(target)
}

/// The coinbase of a share's block: with its witness, where the block has one.
pub open spec fn block_coinbase(share: messages::SubmitView, job: SentJobView) -> Seq<u8> {
    if job.has_witness {
        with_witness(share_coinbase(share, job))
    } else {
        share_coinbase(share, job)
    }
}

/// A transaction without witness data, with the witness of a coinbase put in.
pub open spec fn with_witness(tx: Seq<u8>) -> Seq<u8> {
    let end = tx.len() - 4;
    tx.take(4) + seq![0x00u8, 0x01u8] + tx.subrange(4, end) + coinbase::reserved_witness()
        + tx.skip(end)
}

/// The block that a share is, where its hash meets the network's target.
pub open spec fn share_solution(share: messages::SubmitView, job: SentJobView) -> Option<
    node_ipc::SolutionView,
> {
    if meets(share_hash(share, job), node_ipc::target_of(job.nbits)) {
        Some(
            node_ipc::SolutionView {
                template_id: job.template_id,
                version: share.version,
                header_timestamp: share.ntime,
                header_nonce: share.nonce,
                coinbase_tx: block_coinbase(share, job),
            },
        )
    } else {
        None
    }
}

/// A share that counts, for the record of its miner.
#[derive(Debug, Clone)]
pub struct AcceptedShare {
    pub miner_address: String,
    /// Most significant byte first, as targets are written.
    pub block_hash_be: [u8; 32],
    /// The share's time in Unix seconds.
    pub timestamp: i64,
}

#[verifier::ext_equal]
pub struct AcceptedView {
    pub miner_address: Seq<char>,
    pub block_hash_be: Seq<u8>,
    pub timestamp: i64,
}

impl View for AcceptedShare {
    type V = AcceptedView;

    open spec fn view(&self) -> AcceptedView {
        AcceptedView {
            miner_address: self.miner_address@,
            block_hash_be: self.block_hash_be@,
            timestamp: self.timestamp,
        }
    }
}

pub open spec fn accepted_view(share: Option<AcceptedShare>) -> Option<AcceptedView> {
    match share {
        Some(share) => Some(share@),
        None => None,
    }
}

pub open spec fn solution_view(solution: Option<SubmitSolutionData>) -> Option<
    node_ipc::SolutionView,
> {
    match solution {
        Some(solution) => Some(solution@),
        None => None,
    }
}

/// What becomes of a share.
pub enum ShareOutcome {
    /// No such job was sent on the channel.
    Stale,
    /// The hash is above the channel's target.
    BelowDifficulty,
    Accepted { share: AcceptedShare },
}

/// What becomes of a share, and the block that it is, where it is one.
pub struct ShareVerdict {
    pub outcome: ShareOutcome,
    pub solution: Option<SubmitSolutionData>,
}

pub enum OutcomeView {
    Stale,
    BelowDifficulty,
    Accepted { share: AcceptedView },
}

pub struct VerdictView {
    pub outcome: OutcomeView,
    pub solution: Option<node_ipc::SolutionView>,
}

impl View for ShareVerdict {
    type V = VerdictView;

    open spec fn view(&self) -> VerdictView {
        VerdictView {
            outcome: match self.outcome {
                ShareOutcome::Stale => OutcomeView::Stale,
                ShareOutcome::BelowDifficulty => OutcomeView::BelowDifficulty,
                ShareOutcome::Accepted { share } => OutcomeView::Accepted { share: share@ },
            },
            solution: solution_view(self.solution),
        }
    }
}

/// A verdict is seen as it is: the credit of a share that counts and the block, with all
/// their fields.
pub proof fn verdicts_are_seen_as_they_are(
    verdict: ShareVerdict,
    share: AcceptedShare,
    block: SubmitSolutionData,
)
    ensures
        verdict@.outcome is Stale <==> verdict.outcome is Stale,
        verdict@.outcome is BelowDifficulty <==> verdict.outcome is BelowDifficulty,
        verdict.outcome == (ShareOutcome::Accepted { share }) ==> verdict@.outcome == (
        OutcomeView::Accepted { share: share@ }),
        verdict@.solution is Some <==> verdict.solution is Some,
        verdict.solution == Some(block) ==> verdict@.solution == Some(block@),
        accepted_view(Some(share)) == Some(share@),
        accepted_view(None) is None,
        solution_view(Some(block)) == Some(block@),
        solution_view(None) is None,
        share@.miner_address == share.miner_address@ && share@.block_hash_be == share.block_hash_be@
            && share@.timestamp == share.timestamp,
        block@.template_id == block.template_id && block@.version == block.version
            && block@.header_timestamp == block.header_timestamp && block@.header_nonce
            == block.header_nonce && block@.coinbase_tx == block.coinbase_tx@,
{
}

/// The jobs that a share may be of: those with its id that were sent on its channel, in
/// their order.
pub open spec fn jobs_of(state: ConnectionView, share: messages::SubmitView) -> Seq<SentJobView> {
    if state.channels.contains_key(share.channel_id) {
        stratum_sv2::jobs_at(state.jobs, stratum_sv2::job_key(share.channel_id, share.job_id))
    } else {
        Seq::empty()
    }
}

/// The hash of a share by the latest of the jobs by which it meets the target.
pub open spec fn hash_that_meets(
    jobs: Seq<SentJobView>,
    share: messages::SubmitView,
    target: Seq<u8>,
) -> Option<Seq<u8>>
    decreases jobs.len(),
{
    if jobs.len() == 0 {
        None
    } else if meets(share_hash(share, jobs.last()), target) {
        Some(share_hash(share, jobs.last()))
    } else {
        hash_that_meets(jobs.drop_last(), share, target)
    }
}

/// The block that a share is by the latest of the jobs by which it is one.
pub open spec fn block_of(jobs: Seq<SentJobView>, share: messages::SubmitView) -> Option<
    node_ipc::SolutionView,
>
    decreases jobs.len(),
{
    if jobs.len() == 0 {
        None
    } else if share_solution(share, jobs.last()) is Some {
        share_solution(share, jobs.last())
    } else {
        block_of(jobs.drop_last(), share)
    }
}

/// The verdict on a share: stale where no job of its id was sent on its channel, else
/// too easy where its hash, by each such job, is above the channel's target, else
/// accepted. A block is handed on whatever the channel's target is.
pub open spec fn share_verdict(
    state: ConnectionView,
    share: messages::SubmitView,
) -> VerdictView {
    let jobs = jobs_of(state, share);
    let channel = state.channels[share.channel_id];
    VerdictView {
        outcome: if jobs.len() == 0 {
            OutcomeView::Stale
        } else {
            match hash_that_meets(jobs, share, channel.target) {
                Some(hash) => OutcomeView::Accepted {
                    share: AcceptedView {
                        miner_address: channel.miner_address,
                        block_hash_be: hash.reverse(),
                        timestamp: share.ntime as i64,
                    },
                },
                None => OutcomeView::BelowDifficulty,
            }
        },
        solution: block_of(jobs, share),
    }
}

fn climb_path(hash: [u8; 32], path: &Vec<[u8; 32]>) -> (root: [u8; 32])
    ensures
        root@ == merkle::climb(hash@, jobs::hash_views(path@)),
{
    let mut at: [u8; 32] = hash;
    let ghost all = jobs::hash_views(path@);
    assert(all.skip(0) =~= all);
    let mut i: usize = 0;
    while i < path.len()
        invariant
            i <= path@.len(),
            all == jobs::hash_views(path@),
            merkle::climb(hash@, all) == merkle::climb(at@, all.skip(i as int)),
        decreases path@.len() - i,
    {
        proof {
            let left = all.skip(i as int);
            assert(left[0] == path@[i as int]@);
            assert(left.drop_first() =~= all.skip(i + 1));
        }
        at = jobs::sha256d_pair(&at, &path[i]);
        i = i + 1;
    }
    assert(all.skip(i as int) =~= Seq::empty());
    at
}

fn coinbase_of(share: &SubmitSharesExtended, job: &SentJob) -> (data: Vec<u8>)
    ensures
        data@ == share_coinbase(share@, job@),
{
    let prefix: [u8; 32] = stratum_sv2::prefix_bytes(share.channel_id);
    let mut data: Vec<u8> = Vec::new();
    data.extend_from_slice(job.coinbase_tx_prefix.as_slice());
    data.extend_from_slice(prefix.as_slice());
    data.extend_from_slice(share.extranonce.as_slice());
    data.extend_from_slice(job.coinbase_tx_suffix.as_slice());
    assert(data@ =~= share_coinbase(share@, job@));
    data
}

fn build_header(
    version: u32,
    prev_hash: &[u8; 32],
    root: &[u8; 32],
    time: u32,
    nbits: u32,
    nonce: u32,
) -> (header: Vec<u8>)
    ensures
        header@ == header_bytes(version, prev_hash@, root@, time, nbits, nonce),
        header@.len() == 80,
        bytes::le_value(header@.subrange(0, 4)) == version,
        header@.subrange(4, 36) == prev_hash@,
        header@.subrange(36, 68) == root@,
        bytes::le_value(header@.subrange(68, 72)) == time,
        bytes::le_value(header@.subrange(72, 76)) == nbits,
        bytes::le_value(header@.subrange(76, 80)) == nonce,
{
    proof {
        header_reads_back(version, prev_hash@, root@, time, nbits, nonce);
    }
    let mut header: Vec<u8> = Vec::new();
    bytes::put_le(&mut header, version as u64, 4);
    header.extend_from_slice(prev_hash.as_slice());
    header.extend_from_slice(root.as_slice());
    bytes::put_le(&mut header, time as u64, 4);
    bytes::put_le(&mut header, nbits as u64, 4);
    bytes::put_le(&mut header, nonce as u64, 4);
    assert(header@ =~= header_bytes(version, prev_hash@, root@, time, nbits, nonce));
    header
}

fn hash_of(share: &SubmitSharesExtended, job: &SentJob, coinbase_tx: &Vec<u8>) -> (hash: [u8; 32])
    requires
        coinbase_tx@ == share_coinbase(share@, job@),
    ensures
        hash@ == share_hash(share@, job@),
{
    let leaf: [u8; 32] = merkle::hash_sha256d(coinbase_tx.as_slice());
    let root: [u8; 32] = climb_path(leaf, &job.merkle_path);
    let header: Vec<u8> = build_header(
        share.version,
        &job.prev_hash,
        &root,
        share.ntime,
        job.nbits,
        share.nonce,
    );
    merkle::hash_sha256d(header.as_slice())
}

fn put_in_witness(tx: &Vec<u8>) -> (out: Vec<u8>)
    requires
        tx@.len() >= 8,
    ensures
        out@ == with_witness(tx@),
{
    let end: usize = tx.len() - 4;
    let mut out: Vec<u8> = Vec::new();
    out.extend_from_slice(vstd::slice::slice_subrange(tx.as_slice(), 0, 4));
    out.push(0x00);
    out.push(0x01);
    out.extend_from_slice(vstd::slice::slice_subrange(tx.as_slice(), 4, end));
    out.push(0x01);
    out.push(0x20);
    let zeros: Vec<u8> = vec![0u8; 32];
    out.extend_from_slice(zeros.as_slice());
    out.extend_from_slice(vstd::slice::slice_subrange(tx.as_slice(), end, tx.len()));
    assert(out@ =~= with_witness(tx@));
    out
}

/// The hash of a share by a job, and the block that it is by that job.
fn check_against(share: &SubmitSharesExtended, job: &SentJob) -> (out: (
    [u8; 32],
    Option<SubmitSolutionData>,
))
    ensures
        out.0@ == share_hash(share@, job@),
        solution_view(out.1) == share_solution(share@, job@),
{
    let coinbase_tx: Vec<u8> = coinbase_of(share, job);
    proof {
        bytes::lemma_le_len(share.channel_id as nat, 4);
    }
    let hash: [u8; 32] = hash_of(share, job, &coinbase_tx);
    let network_target: [u8; 32] = node_ipc::target_from_bits(job.nbits);
    let solution: Option<SubmitSolutionData> = if db::at_most(&hash, &network_target) {
        Some(
            SubmitSolutionData {
                template_id: job.template_id,
                version: share.version,
                header_timestamp: share.ntime,
                header_nonce: share.nonce,
                coinbase_tx: if job.has_witness {
                    put_in_witness(&coinbase_tx)
                } else {
                    coinbase_tx
                },
            },
        )
    } else {
        None
    };
    (hash, solution)
}

/// Checks a share against the jobs that it may be of.
pub fn handle_submit_shares(share: &SubmitSharesExtended, state: &ConnectionState) -> (out:
    ShareVerdict)
    ensures
        out@ == share_verdict(state@, share@),
{
    let key: u64 = stratum_sv2::place_of(share.channel_id, share.job_id);
    let channel: &ChannelInfo = match state.channels.get(&share.channel_id) {
        Some(channel) => channel,
        None => {
            return ShareVerdict { outcome: ShareOutcome::Stale, solution: None };
        },
    };
    let kept: &Vec<SentJob> = match state.jobs.get(&key) {
        Some(kept) => kept,
        None => {
            return ShareVerdict { outcome: ShareOutcome::Stale, solution: None };
        },
    };
    let ghost jobs = jobs_of(state@, share@);
    assert(state@.channels[share.channel_id] == channel@);
    assert(jobs == stratum_sv2::sent_views(kept@));
    let mut found: Option<[u8; 32]> = None;
    let mut solution: Option<SubmitSolutionData> = None;
    let mut i: usize = kept.len();
    assert(jobs.take(i as int) =~= jobs);
    while i > 0
        invariant
            i <= kept@.len(),
            jobs == stratum_sv2::sent_views(kept@),
            hash_that_meets(jobs, share@, channel.target@) == match found {
                Some(hash) => Some(hash@),
                None => hash_that_meets(jobs.take(i as int), share@, channel.target@),
            },
            block_of(jobs, share@) == match solution {
                Some(block) => Some(block@),
                None => block_of(jobs.take(i as int), share@),
            },
        decreases i,
    {
        proof {
            let left = jobs.take(i as int);
            assert(left.last() == kept@[i - 1]@);
            assert(left.drop_last() =~= jobs.take(i - 1));
        }
        i = i - 1;
        let (hash, block) = check_against(share, &kept[i]);
        if found.is_none() && db::at_most(&hash, &channel.target) {
            found = Some(hash);
        }
        if solution.is_none() {
            solution = block;
        }
    }
    assert(jobs.take(0) =~= Seq::empty());
    if kept.len() == 0 {
        return ShareVerdict { outcome: ShareOutcome::Stale, solution };
    }
    match found {
        Some(hash) => {
            let accepted: AcceptedShare = AcceptedShare {
                miner_address: channel.miner_address.clone(),
                block_hash_be: db::backwards(&hash),
                timestamp: share.ntime as i64,
            };
            ShareVerdict { outcome: ShareOutcome::Accepted { share: accepted }, solution }
        },
        None => ShareVerdict { outcome: ShareOutcome::BelowDifficulty, solution },
    }
}

/// The frame that accepts a share.
pub open spec fn share_success_frame(channel_id: u32, sequence_number: u32) -> Seq<u8> {
    messages::frame(
        messages::SUBMIT_SHARES_SUCCESS,
        true,
        messages::submit_success_payload(channel_id, sequence_number, 1, 1),
    )
}

/// The frame that refuses a share.
pub open spec fn share_error_frame(
    channel_id: u32,
    sequence_number: u32,
    code: Seq<char>,
) -> Seq<u8> {
    messages::frame(
        messages::SUBMIT_SHARES_ERROR,
        true,
        messages::submit_error_payload(
            channel_id,
            sequence_number,
            vstd::utf8::encode_utf8(code),
        ),
    )
}

/// The frame that answers a share.
pub open spec fn share_reply(share: messages::SubmitView, outcome: OutcomeView) -> Seq<u8> {
    match outcome {
        OutcomeView::Stale => share_error_frame(
            share.channel_id,
            share.sequence_number,
            STALE_SHARE@,
        ),
        OutcomeView::BelowDifficulty => share_error_frame(
            share.channel_id,
            share.sequence_number,
            DIFFICULTY_TOO_LOW@,
        ),
        OutcomeView::Accepted { .. } => share_success_frame(
            share.channel_id,
            share.sequence_number,
        ),
    }
}

/// What a `SubmitSharesExtended` does: one that can be read is answered and changes
/// nothing, one that cannot ends the connection.
pub open spec fn submit_effect(state: ConnectionView, payload: Seq<u8>) -> Effect {
    match messages::submit_at_front(payload) {
        None => stratum_sv2::plain_effect(state, Seq::empty(), Some(MessageError::MalformedShare)),
        Some(share) => {
            let verdict = share_verdict(state, share);
            Effect {
                state,
                frames: seq![share_reply(share, verdict.outcome)],
                error: None,
                share: match verdict.outcome {
                    OutcomeView::Accepted { share } => Some(share),
                    _ => None,
                },
                solution: verdict.solution,
            }
        },
    }
}

proof fn lemma_share_codes_are_short()
    ensures
        vstd::utf8::encode_utf8(STALE_SHARE@).len() <= 255,
        vstd::utf8::encode_utf8(DIFFICULTY_TOO_LOW@).len() <= 255,
{
    reveal_strlit("stale-share");
    reveal_strlit("difficulty-too-low");
    vstd::utf8::is_ascii_chars_encode_utf8("stale-share"@);
    vstd::utf8::is_ascii_chars_encode_utf8("difficulty-too-low"@);
}

fn refuse_share(share: &SubmitSharesExtended, code: &str) -> (frame: Vec<u8>)
    requires
        vstd::utf8::encode_utf8(code@).len() <= 255,
    ensures
        frame@ == share_error_frame(share.channel_id, share.sequence_number, code@),
{
    let payload: Vec<u8> = messages::submit_error_to_bytes(
        share.channel_id,
        share.sequence_number,
        code,
    );
    proof {
        bytes::lemma_le_len(share.channel_id as nat, 4);
        bytes::lemma_le_len(share.sequence_number as nat, 4);
    }
    messages::framed(messages::SUBMIT_SHARES_ERROR, true, &payload)
}

fn accept_share(share: &SubmitSharesExtended) -> (frame: Vec<u8>)
    ensures
        frame@ == share_success_frame(share.channel_id, share.sequence_number),
{
    let payload: Vec<u8> = messages::submit_success_to_bytes(
        share.channel_id,
        share.sequence_number,
        1,
        1,
    );
    proof {
        bytes::lemma_le_len(share.channel_id as nat, 4);
        bytes::lemma_le_len(share.sequence_number as nat, 4);
        bytes::lemma_le_len(1, 4);
        bytes::lemma_le_len(1, 8);
    }
    messages::framed(messages::SUBMIT_SHARES_SUCCESS, true, &payload)
}

/// Answers a `SubmitSharesExtended`.
pub fn answer_share(payload: &Vec<u8>, state: &ConnectionState) -> (reply: Reply)
    ensures
        reply.is(submit_effect(state@, payload@)),
{
    let mut frames: Vec<Vec<u8>> = Vec::new();
    let share: SubmitSharesExtended = match messages::read_submit_shares(payload) {
        Some(share) => share,
        None => {
            assert(stratum_sv2::frame_views(frames@) =~= Seq::empty());
            return stratum_sv2::plain_reply(frames, Err(MessageError::MalformedShare));
        },
    };
    proof {
        lemma_share_codes_are_short();
    }
    let verdict: ShareVerdict = handle_submit_shares(&share, state);
    let ghost effect = submit_effect(state@, payload@);
    let solution: Option<SubmitSolutionData> = verdict.solution;
    match verdict.outcome {
        ShareOutcome::Stale => {
            frames.push(refuse_share(&share, STALE_SHARE));
            assert(stratum_sv2::frame_views(frames@) =~= effect.frames);
            Reply { frames, outcome: Ok(()), share: None, solution }
        },
        ShareOutcome::BelowDifficulty => {
            frames.push(refuse_share(&share, DIFFICULTY_TOO_LOW));
            assert(stratum_sv2::frame_views(frames@) =~= effect.frames);
            Reply { frames, outcome: Ok(()), share: None, solution }
        },
        ShareOutcome::Accepted { share: accepted } => {
            frames.push(accept_share(&share));
            assert(stratum_sv2::frame_views(frames@) =~= effect.frames);
            Reply { frames, outcome: Ok(()), share: Some(accepted), solution }
        },
    }
}

/// On a well-formed connection a share is stale exactly where no job of its id was
/// sent on its channel.
pub proof fn stale_exactly_where_not_sent(state: ConnectionView, share: messages::SubmitView)
    requires
        state.well_formed(),
    ensures
        share_verdict(state, share).outcome is Stale <==> !state.jobs.contains_key(
            stratum_sv2::job_key(share.channel_id, share.job_id),
        ),
{
    stratum_sv2::job_keys_are_distinct(
        share.channel_id,
        share.job_id,
        share.channel_id,
        share.job_id,
    );
}

/// Every share that can be read is answered by one frame, which carries its channel
/// and its sequence number: an acceptance exactly where the share counts, and then
/// its miner is credited, else a refusal. The connection stands as it was.
pub proof fn every_share_is_answered(
    state: ConnectionView,
    payload: Seq<u8>,
    share: messages::SubmitView,
)
    requires
        messages::submit_at_front(payload) == Some(share),
    ensures
        ({
            let effect = submit_effect(state, payload);
            let yes = share_success_frame(share.channel_id, share.sequence_number);
            let counts = share_verdict(state, share).outcome is Accepted;
            &&& effect.state == state
            &&& effect.error is None
            &&& effect.frames.len() == 1
            &&& counts <==> effect.frames[0] == yes
            &&& counts <==> effect.share is Some
            &&& !counts ==> exists|code: Seq<char>|
                effect.frames[0] == share_error_frame(
                    share.channel_id,
                    share.sequence_number,
                    code,
                )
        }),
{
    let effect = submit_effect(state, payload);
    let verdict = share_verdict(state, share);
    if !(verdict.outcome is Accepted) {
        let code = if verdict.outcome is Stale {
            STALE_SHARE@
        } else {
            DIFFICULTY_TOO_LOW@
        };
        assert(effect.frames[0] == share_error_frame(
            share.channel_id,
            share.sequence_number,
            code,
        ));
        messages::frame_reads_back(
            messages::SUBMIT_SHARES_ERROR,
            true,
            messages::submit_error_payload(
                share.channel_id,
                share.sequence_number,
                vstd::utf8::encode_utf8(code),
            ),
            messages::SUBMIT_SHARES_SUCCESS,
            true,
            messages::submit_success_payload(share.channel_id, share.sequence_number, 1, 1),
        );
    }
}

/// A block is handed on whether or not its share counts, and only a block of a job
/// that was sent: exactly where the share's hash, by one of the jobs that it may be of,
/// meets the network's target.
pub proof fn a_block_is_never_withheld(state: ConnectionView, share: messages::SubmitView)
    ensures
        share_verdict(state, share).solution is Some <==> exists|i: int|
            0 <= i < jobs_of(state, share).len() && meets(
                share_hash(share, #[trigger] jobs_of(state, share)[i]),
                node_ipc::target_of(jobs_of(state, share)[i].nbits),
            ),
{
    lemma_block_of(jobs_of(state, share), share);
}

proof fn lemma_block_of(jobs: Seq<SentJobView>, share: messages::SubmitView)
    ensures
        block_of(jobs, share) is Some <==> exists|i: int|
            0 <= i < jobs.len() && share_solution(share, #[trigger] jobs[i]) is Some,
    decreases jobs.len(),
{
    if jobs.len() > 0 {
        let fewer = jobs.drop_last();
        lemma_block_of(fewer, share);
        if share_solution(share, jobs.last()) is Some {
            assert(share_solution(share, jobs[jobs.len() - 1]) is Some);
        } else {
            if block_of(fewer, share) is Some {
                let i = choose|i: int|
                    0 <= i < fewer.len() && share_solution(share, #[trigger] fewer[i]) is Some;
                assert(jobs[i] == fewer[i]);
            }
            if exists|i: int|
                0 <= i < jobs.len() && share_solution(share, #[trigger] jobs[i]) is Some {
                let i = choose|i: int|
                    0 <= i < jobs.len() && share_solution(share, #[trigger] jobs[i]) is Some;
                assert(fewer[i] == jobs[i]);
            }
        }
    }
}

proof fn lemma_hash_that_meets(
    jobs: Seq<SentJobView>,
    share: messages::SubmitView,
    target: Seq<u8>,
)
    ensures
        hash_that_meets(jobs, share, target) is Some <==> exists|i: int|
            0 <= i < jobs.len() && meets(share_hash(share, #[trigger] jobs[i]), target),
    decreases jobs.len(),
{
    if jobs.len() > 0 {
        let fewer = jobs.drop_last();
        lemma_hash_that_meets(fewer, share, target);
        if meets(share_hash(share, jobs.last()), target) {
            assert(meets(share_hash(share, jobs[jobs.len() - 1]), target));
        } else {
            if hash_that_meets(fewer, share, target) is Some {
                let i = choose|i: int|
                    0 <= i < fewer.len() && meets(share_hash(share, #[trigger] fewer[i]), target);
                assert(jobs[i] == fewer[i]);
            }
            if exists|i: int|
                0 <= i < jobs.len() && meets(share_hash(share, #[trigger] jobs[i]), target) {
                let i = choose|i: int|
                    0 <= i < jobs.len() && meets(share_hash(share, #[trigger] jobs[i]), target);
                assert(fewer[i] == jobs[i]);
            }
        }
    }
}

/// A share counts exactly where its hash, by one of the jobs that it may be of, meets
/// the channel's target: a later job with the same id takes nothing from an earlier one.
pub proof fn a_share_of_any_of_its_jobs_counts(
    state: ConnectionView,
    share: messages::SubmitView,
)
    ensures
        share_verdict(state, share).outcome is Accepted <==> exists|i: int|
            0 <= i < jobs_of(state, share).len() && meets(
                share_hash(share, #[trigger] jobs_of(state, share)[i]),
                state.channels[share.channel_id].target,
            ),
{
    lemma_hash_that_meets(
        jobs_of(state, share),
        share,
        state.channels[share.channel_id].target,
    );
}

/// The hash of a share is that of its header. The header is the only one of which these
/// are the fields: the share's version, the job's previous hash, the root that the job's
/// path leads to from the hash of the coinbase, the share's time, the job's bits, and the
/// share's nonce. The coinbase is the only one that is the job's first piece, the
/// channel's number, 28 zero bytes, what the miner rolled, and the job's second piece.
pub proof fn a_share_is_hashed_by_its_header(
    share: messages::SubmitView,
    job: SentJobView,
    tx: Seq<u8>,
    header: Seq<u8>,
)
    requires
        job.prev_hash.len() == 32,
        ({
            let a = job.coinbase_tx_prefix.len() as int;
            let b = a + 32 + share.extranonce.len();
            &&& tx.len() == b + job.coinbase_tx_suffix.len()
            &&& tx.take(a) == job.coinbase_tx_prefix
            &&& bytes::le_value(tx.subrange(a, a + 4)) == share.channel_id
            &&& forall|i: int| a + 4 <= i < a + 32 ==> tx[i] == 0
            &&& tx.subrange(a + 32, b) == share.extranonce
            &&& tx.skip(b) == job.coinbase_tx_suffix
        }),
        ({
            let end = header.len() as int;
            let root = merkle::climb(merkle::sha256d(tx), job.merkle_path);
            &&& end == 48 + root.len()
            &&& bytes::le_value(header.subrange(0, 4)) == share.version
            &&& header.subrange(4, 36) == job.prev_hash
            &&& header.subrange(36, end - 12) == root
            &&& bytes::le_value(header.subrange(end - 12, end - 8)) == share.ntime
            &&& bytes::le_value(header.subrange(end - 8, end - 4)) == job.nbits
            &&& bytes::le_value(header.subrange(end - 4, end)) == share.nonce
        }),
    ensures
        share_coinbase(share, job) == tx,
        share_hash(share, job) == merkle::sha256d(header),
{
    lemma_only_coinbase(share, job, tx);
    let root = merkle::climb(merkle::sha256d(tx), job.merkle_path);
    let own = share_header(share, job);
    let end = header.len() as int;
    header_reads_back(share.version, job.prev_hash, root, share.ntime, job.nbits, share.nonce);
    bytes::a_number_has_one_form(header.subrange(0, 4), own.subrange(0, 4));
    bytes::a_number_has_one_form(
        header.subrange(end - 12, end - 8),
        own.subrange(end - 12, end - 8),
    );
    bytes::a_number_has_one_form(
        header.subrange(end - 8, end - 4),
        own.subrange(end - 8, end - 4),
    );
    bytes::a_number_has_one_form(header.subrange(end - 4, end), own.subrange(end - 4, end));
    assert(header =~= header.subrange(0, 4) + header.subrange(4, 36) + header.subrange(36, end - 12)
        + header.subrange(end - 12, end - 8) + header.subrange(end - 8, end - 4) + header.subrange(
        end - 4,
        end,
    ));
    assert(own =~= own.subrange(0, 4) + own.subrange(4, 36) + own.subrange(36, end - 12)
        + own.subrange(end - 12, end - 8) + own.subrange(end - 8, end - 4) + own.subrange(
        end - 4,
        end,
    ));
}

proof fn lemma_only_coinbase(share: messages::SubmitView, job: SentJobView, tx: Seq<u8>)
    requires
        ({
            let a = job.coinbase_tx_prefix.len() as int;
            let b = a + 32 + share.extranonce.len();
            &&& tx.len() == b + job.coinbase_tx_suffix.len()
            &&& tx.take(a) == job.coinbase_tx_prefix
            &&& bytes::le_value(tx.subrange(a, a + 4)) == share.channel_id
            &&& forall|i: int| a + 4 <= i < a + 32 ==> tx[i] == 0
            &&& tx.subrange(a + 32, b) == share.extranonce
            &&& tx.skip(b) == job.coinbase_tx_suffix
        }),
    ensures
        share_coinbase(share, job) == tx,
{
    let a = job.coinbase_tx_prefix.len() as int;
    let b = a + 32 + share.extranonce.len();
    bytes::lemma_pow256();
    bytes::lemma_le_len(share.channel_id as nat, 4);
    bytes::lemma_le_round_trip(share.channel_id as nat, 4);
    bytes::a_number_has_one_form(tx.subrange(a, a + 4), bytes::le(share.channel_id as nat, 4));
    assert(tx.subrange(a + 4, a + 32) =~= coinbase::run(0x00, 28));
    assert(tx =~= tx.take(a) + (tx.subrange(a, a + 4) + tx.subrange(a + 4, a + 32)) + tx.subrange(
        a + 32,
        b,
    ) + tx.skip(b));
}

/// The verdict on a share. It is stale exactly where its channel is not open or no job of
/// its id was sent there. It counts exactly where its hash by one of these jobs, as a
/// number, is at most the channel's target; then the channel's miner is credited at the
/// share's time with the hash by the latest such job, most significant byte first. It is
/// a block exactly where its hash by one of these jobs is at most the target of the job's
/// bits; then the latest such job's template gets the share's version, time and nonce and
/// the share's coinbase.
pub proof fn what_becomes_of_a_share(state: ConnectionView, share: messages::SubmitView)
    ensures
        ({
            let key = (share.channel_id * 0x1_0000_0000 + share.job_id) as u64;
            let channel = state.channels[share.channel_id];
            let jobs = state.jobs[key];
            let sent = state.channels.contains_key(share.channel_id) && state.jobs.contains_key(key)
                && jobs.len() > 0;
            let verdict = share_verdict(state, share);
            &&& verdict.outcome is Stale <==> !sent
            &&& !sent ==> verdict.solution is None
            &&& sent ==> {
                &&& verdict.outcome is Accepted <==> exists|i: int|
                    0 <= i < jobs.len() && bytes::le_value(share_hash(share, #[trigger] jobs[i]))
                        <= bytes::le_value(channel.target)
                &&& verdict.outcome matches OutcomeView::Accepted { share: credited } ==> {
                    &&& credited.miner_address == channel.miner_address
                    &&& credited.timestamp == share.ntime
                    &&& exists|i: int|
                        {
                            &&& 0 <= i < jobs.len()
                            &&& credited.block_hash_be == share_hash(
                                share,
                                #[trigger] jobs[i],
                            ).reverse()
                            &&& bytes::le_value(share_hash(share, jobs[i])) <= bytes::le_value(
                                channel.target,
                            )
                            &&& forall|j: int|
                                i < j < jobs.len() ==> bytes::le_value(
                                    share_hash(share, #[trigger] jobs[j]),
                                ) > bytes::le_value(channel.target)
                        }
                }
                &&& verdict.solution is Some <==> exists|i: int|
                    0 <= i < jobs.len() && bytes::le_value(share_hash(share, #[trigger] jobs[i]))
                        <= bytes::le_value(node_ipc::target_of(jobs[i].nbits))
                &&& verdict.solution matches Some(block) ==> exists|i: int|
                    {
                        &&& 0 <= i < jobs.len()
                        &&& block.template_id == (#[trigger] jobs[i]).template_id
                        &&& block.version == share.version
                        &&& block.header_timestamp == share.ntime
                        &&& block.header_nonce == share.nonce
                        &&& !jobs[i].has_witness ==> block.coinbase_tx == share_coinbase(
                            share,
                            jobs[i],
                        )
                        &&& jobs[i].has_witness ==> block.coinbase_tx == with_witness(
                            share_coinbase(share, jobs[i]),
                        )
                        &&& bytes::le_value(share_hash(share, jobs[i])) <= bytes::le_value(
                            node_ipc::target_of(jobs[i].nbits),
                        )
                        &&& forall|j: int|
                            i < j < jobs.len() ==> bytes::le_value(
                                share_hash(share, #[trigger] jobs[j]),
                            ) > bytes::le_value(node_ipc::target_of(jobs[j].nbits))
                    }
            }
        }),
{
    let key = (share.channel_id * 0x1_0000_0000 + share.job_id) as u64;
    let channel = state.channels[share.channel_id];
    let jobs = state.jobs[key];
    let sent = state.channels.contains_key(share.channel_id) && state.jobs.contains_key(key)
        && jobs.len() > 0;
    if sent {
        assert(jobs_of(state, share) == jobs);
        lemma_latest_that_meets(jobs, share, channel.target);
        lemma_latest_block(jobs, share);
    }
}

proof fn lemma_latest_that_meets(
    jobs: Seq<SentJobView>,
    share: messages::SubmitView,
    target: Seq<u8>,
)
    ensures
        match hash_that_meets(jobs, share, target) {
            Some(hash) => exists|i: int|
                {
                    &&& 0 <= i < jobs.len()
                    &&& hash == share_hash(share, #[trigger] jobs[i])
                    &&& bytes::le_value(share_hash(share, jobs[i])) <= bytes::le_value(target)
                    &&& forall|j: int|
                        i < j < jobs.len() ==> bytes::le_value(
                            share_hash(share, #[trigger] jobs[j]),
                        ) > bytes::le_value(target)
                },
            None => forall|i: int|
                0 <= i < jobs.len() ==> bytes::le_value(share_hash(share, #[trigger] jobs[i]))
                    > bytes::le_value(target),
        },
    decreases jobs.len(),
{
    if jobs.len() > 0 {
        let fewer = jobs.drop_last();
        let end = jobs.len() - 1;
        assert(jobs.last() == jobs[end]);
        if !meets(share_hash(share, jobs.last()), target) {
            lemma_latest_that_meets(fewer, share, target);
            match hash_that_meets(fewer, share, target) {
                Some(hash) => {
                    let i = choose|i: int|
                        {
                            &&& 0 <= i < fewer.len()
                            &&& hash == share_hash(share, #[trigger] fewer[i])
                            &&& bytes::le_value(share_hash(share, fewer[i])) <= bytes::le_value(
                                target,
                            )
                            &&& forall|j: int|
                                i < j < fewer.len() ==> bytes::le_value(
                                    share_hash(share, #[trigger] fewer[j]),
                                ) > bytes::le_value(target)
                        };
                    assert(jobs[i] == fewer[i]);
                    assert forall|j: int| i < j < jobs.len() implies bytes::le_value(
                        share_hash(share, #[trigger] jobs[j]),
                    ) > bytes::le_value(target) by {
                        if j < end {
                            assert(fewer[j] == jobs[j]);
                        }
                    }
                },
                None => {
                    assert forall|i: int| 0 <= i < jobs.len() implies bytes::le_value(
                        share_hash(share, #[trigger] jobs[i]),
                    ) > bytes::le_value(target) by {
                        if i < end {
                            assert(fewer[i] == jobs[i]);
                        }
                    }
                },
            }
        }
    }
}

proof fn lemma_latest_block(jobs: Seq<SentJobView>, share: messages::SubmitView)
    ensures
        match block_of(jobs, share) {
            Some(block) => exists|i: int|
                {
                    &&& 0 <= i < jobs.len()
                    &&& share_solution(share, #[trigger] jobs[i]) == Some(block)
                    &&& forall|j: int|
                        i < j < jobs.len() ==> bytes::le_value(
                            share_hash(share, #[trigger] jobs[j]),
                        ) > bytes::le_value(node_ipc::target_of(jobs[j].nbits))
                },
            None => forall|i: int|
                0 <= i < jobs.len() ==> bytes::le_value(share_hash(share, #[trigger] jobs[i]))
                    > bytes::le_value(node_ipc::target_of(jobs[i].nbits)),
        },
    decreases jobs.len(),
{
    if jobs.len() > 0 {
        let fewer = jobs.drop_last();
        let end = jobs.len() - 1;
        assert(jobs.last() == jobs[end]);
        if share_solution(share, jobs.last()) is None {
            lemma_latest_block(fewer, share);
            match block_of(fewer, share) {
                Some(block) => {
                    let i = choose|i: int|
                        {
                            &&& 0 <= i < fewer.len()
                            &&& share_solution(share, #[trigger] fewer[i]) == Some(block)
                            &&& forall|j: int|
                                i < j < fewer.len() ==> bytes::le_value(
                                    share_hash(share, #[trigger] fewer[j]),
                                ) > bytes::le_value(node_ipc::target_of(fewer[j].nbits))
                        };
                    assert(jobs[i] == fewer[i]);
                    assert forall|j: int| i < j < jobs.len() implies bytes::le_value(
                        share_hash(share, #[trigger] jobs[j]),
                    ) > bytes::le_value(node_ipc::target_of(jobs[j].nbits)) by {
                        if j < end {
                            assert(fewer[j] == jobs[j]);
                        }
                    }
                },
                None => {
                    assert forall|i: int| 0 <= i < jobs.len() implies bytes::le_value(
                        share_hash(share, #[trigger] jobs[i]),
                    ) > bytes::le_value(node_ipc::target_of(jobs[i].nbits)) by {
                        if i < end {
                            assert(fewer[i] == jobs[i]);
                        }
                    }
                },
            }
        }
    }
}

/// What a share is answered, read from the frame's bytes: the type of the answer, the
/// channel and the sequence number; one share accepted, with a sum of one; or the code of
/// the refusal, which is that of a stale share exactly where the share is stale. What is
/// credited and what is handed on is the verdict's.
pub proof fn answers_read_back(
    state: ConnectionView,
    payload: Seq<u8>,
    share: messages::SubmitView,
)
    requires
        messages::submit_at_front(payload) == Some(share),
    ensures
        ({
            let effect = submit_effect(state, payload);
            let verdict = share_verdict(state, share);
            let frame = effect.frames[0];
            let code = if verdict.outcome is Stale {
                vstd::utf8::encode_utf8("stale-share"@)
            } else {
                vstd::utf8::encode_utf8("difficulty-too-low"@)
            };
            &&& effect.frames.len() == 1
            &&& frame[0] == 0 && frame[1] == 0x80
            &&& bytes::le_value(frame.subrange(3, 6)) == frame.len() - 6
            &&& bytes::le_value(frame.subrange(6, 10)) == share.channel_id
            &&& bytes::le_value(frame.subrange(10, 14)) == share.sequence_number
            &&& if verdict.outcome is Accepted {
                &&& frame[2] == 0x1c
                &&& bytes::le_value(frame.subrange(14, 18)) == 1
                &&& bytes::le_value(frame.subrange(18, 26)) == 1
                &&& frame.len() == 26
            } else {
                &&& frame[2] == 0x1d
                &&& frame[14] == code.len()
                &&& frame.skip(15) == code
            }
            &&& effect.share == match verdict.outcome {
                OutcomeView::Accepted { share } => Some(share),
                _ => None,
            }
            &&& effect.solution == verdict.solution
        }),
{
    let effect = submit_effect(state, payload);
    let verdict = share_verdict(state, share);
    let frame = effect.frames[0];
    let code = if verdict.outcome is Stale {
        vstd::utf8::encode_utf8("stale-share"@)
    } else {
        vstd::utf8::encode_utf8("difficulty-too-low"@)
    };
    lemma_share_codes_are_short();
    bytes::lemma_pow256();
    bytes::lemma_le_len(share.channel_id as nat, 4);
    bytes::lemma_le_len(share.sequence_number as nat, 4);
    bytes::lemma_le_len(1, 4);
    bytes::lemma_le_len(1, 8);
    bytes::lemma_le_round_trip(share.channel_id as nat, 4);
    bytes::lemma_le_round_trip(share.sequence_number as nat, 4);
    bytes::lemma_le_round_trip(1, 4);
    bytes::lemma_le_round_trip(1, 8);
    let inner = if verdict.outcome is Accepted {
        messages::submit_success_payload(share.channel_id, share.sequence_number, 1, 1)
    } else {
        messages::submit_error_payload(share.channel_id, share.sequence_number, code)
    };
    let msg_type: u8 = if verdict.outcome is Accepted {
        0x1c
    } else {
        0x1d
    };
    assert(frame == messages::frame(msg_type, true, inner));
    messages::frame_header_says(msg_type, true, inner);
    assert(frame.subrange(6, 10) =~= inner.subrange(0, 4));
    assert(frame.subrange(10, 14) =~= inner.subrange(4, 8));
    assert(inner.subrange(0, 4) =~= bytes::le(share.channel_id as nat, 4));
    assert(inner.subrange(4, 8) =~= bytes::le(share.sequence_number as nat, 4));
    if verdict.outcome is Accepted {
        assert(frame.subrange(14, 18) =~= bytes::le(1, 4));
        assert(frame.subrange(18, 26) =~= bytes::le(1, 8));
    } else {
        assert(frame[14] == frame.skip(6)[8]);
        assert(inner[8] == code.len() as u8);
        assert(frame.skip(15) =~= inner.skip(9));
        assert(inner.skip(9) =~= code);
    }
}

// ── What shares are of ────────────────────────────────────────────────────────

/// A share of a job that was sent to a miner is a header of the template's chain
/// over a block that pays the miner: its coinbase is the one that its channel works
/// on, and its root is the merkle root over it and all transactions of the template.
pub proof fn share_is_of_a_block_that_pays_the_miner(
    share: messages::SubmitView,
    address: Seq<char>,
    template: BlockTemplate,
)
    requires
        stratum_sv2::job_error(address, template) is None,
        share.extranonce.len() == SV2_EXTRANONCE2_SIZE,
    ensures
        ({
            let job = stratum_sv2::job_record(address, Template::Rpc { template });
            let view = stratum_sv2::channel_coinbase(
                share.channel_id,
                address,
                share.extranonce,
                template,
            );
            let tx = coinbase::legacy_bytes(view);
            &&& share_coinbase(share, job) == tx
            &&& view.outputs[0].value == template.coinbasevalue as u64
            &&& Some(view.outputs[0].script_pubkey) == jobs::address_script(address)
            &&& share_header(share, job) == header_bytes(
                share.version,
                jobs::internal_hash(template.previousblockhash@),
                merkle::root(
                    seq![merkle::sha256d(tx)] + jobs::tx_hashes(template.transactions@),
                ),
                share.ntime,
                hexadecimal::parsed(template.bits@)->0 as u32,
                share.nonce,
            )
        }),
{
    stratum_sv2::channel_job_is_a_block_that_pays_the_miner(
        share.channel_id,
        address,
        share.job_id,
        template,
        share.extranonce,
    );
}

/// A share of a job of a provider's template pays the miner as well: its coinbase
/// has all that is left for the miner as its first output and the provider's outputs
/// behind it.
pub proof fn share_of_a_provided_job_pays_the_miner(
    share: messages::SubmitView,
    address: Seq<char>,
    template: RawTemplate,
    others: Seq<coinbase::OutputView>,
)
    requires
        stratum_sv2::provided_error(address, template) is None,
        share.extranonce.len() == SV2_EXTRANONCE2_SIZE,
        template@.coinbase_tx_outputs_count == others.len(),
        template@.coinbase_tx_outputs == coinbase::outputs_bytes(others),
    ensures
        ({
            let job = stratum_sv2::job_record(address, Template::Provided { template });
            let payout = coinbase::OutputView {
                value: template@.coinbase_tx_value_remaining,
                script_pubkey: jobs::address_script(address)->0,
            };
            let view = coinbase::CoinbaseView {
                version: template@.coinbase_tx_version,
                script_sig: template@.coinbase_prefix + (stratum_sv2::extranonce_prefix(
                    share.channel_id,
                ) + share.extranonce),
                sequence: template@.coinbase_tx_input_sequence,
                outputs: seq![payout] + others,
                lock_time: template@.coinbase_tx_locktime,
            };
            &&& share_coinbase(share, job) == coinbase::legacy_bytes(view)
            &&& block_coinbase(share, job) == if others.len() > 0 {
                coinbase::segwit_bytes(view)
            } else {
                coinbase::legacy_bytes(view)
            }
        }),
{
    let job = stratum_sv2::job_record(address, Template::Provided { template });
    let extranonce = stratum_sv2::extranonce_prefix(share.channel_id) + share.extranonce;
    let payout = coinbase::OutputView {
        value: template@.coinbase_tx_value_remaining,
        script_pubkey: jobs::address_script(address)->0,
    };
    let view = coinbase::CoinbaseView {
        version: template@.coinbase_tx_version,
        script_sig: template@.coinbase_prefix + extranonce,
        sequence: template@.coinbase_tx_input_sequence,
        outputs: seq![payout] + others,
        lock_time: template@.coinbase_tx_locktime,
    };
    bytes::lemma_le_len(share.channel_id as nat, 4);
    jobs::tdp_pieces_make_the_transaction(
        template@.coinbase_prefix,
        extranonce,
        template@.coinbase_tx_version,
        template@.coinbase_tx_input_sequence,
        payout,
        others,
        template@.coinbase_tx_locktime,
        false,
    );
    assert(share_coinbase(share, job) =~= job.coinbase_tx_prefix + extranonce
        + job.coinbase_tx_suffix);
    lemma_witness_of_a_coinbase(view);
}

// ── Solved blocks ─────────────────────────────────────────────────────────────

/// A coinbase with its witness, with the witness taken out.
pub open spec fn without_witness(tx: Seq<u8>) -> Seq<u8> {
    tx.take(4) + tx.subrange(6, tx.len() - 38) + tx.skip(tx.len() - 4)
}

/// Taking out the witness that was put in gives back the transaction.
pub proof fn witness_comes_out_again(tx: Seq<u8>)
    requires
        tx.len() >= 8,
    ensures
        without_witness(with_witness(tx)) == tx,
{
    assert(without_witness(with_witness(tx)) =~= tx);
}

/// Putting in a witness adds the marker 0 and the flag 1 behind the version, and one
/// witness item of 32 zero bytes before the lock time, and changes nothing else.
pub proof fn witness_is_put_in(tx: Seq<u8>)
    requires
        tx.len() >= 8,
    ensures
        ({
            let data = with_witness(tx);
            let end = data.len() - 4;
            &&& data.len() == tx.len() + 36
            &&& data.take(4) == tx.take(4)
            &&& data[4] == 0 && data[5] == 1
            &&& data.subrange(6, end - 34) == tx.subrange(4, tx.len() - 4)
            &&& data[end - 34] == 1 && data[end - 33] == 32
            &&& forall|i: int| end - 32 <= i < end ==> data[i] == 0
            &&& data.skip(end) == tx.skip(tx.len() - 4)
        }),
{
    let data = with_witness(tx);
    let end = data.len() - 4;
    assert(data.take(4) =~= tx.take(4));
    assert(data.subrange(6, end - 34) =~= tx.subrange(4, tx.len() - 4));
    assert(data.skip(end) =~= tx.skip(tx.len() - 4));
    assert(data.subrange(end - 34, end) =~= coinbase::reserved_witness());
    assert forall|i: int| 0 <= i < 34 implies data[end - 34 + i]
        == #[trigger] coinbase::reserved_witness()[i] by {
        assert(data.subrange(end - 34, end)[i] == data[end - 34 + i]);
    }
    assert(data[end - 34] == coinbase::reserved_witness()[0]);
    assert(data[end - 33] == coinbase::reserved_witness()[1]);
    assert forall|i: int| end - 32 <= i < end implies data[i] == 0 by {
        assert(data[end - 34 + (i - end + 34)] == coinbase::reserved_witness()[i - end + 34]);
    }
}

proof fn lemma_witness_of_a_coinbase(view: coinbase::CoinbaseView)
    ensures
        with_witness(coinbase::legacy_bytes(view)) == coinbase::segwit_bytes(view),
        coinbase::legacy_bytes(view).len() >= 8,
{
    let tx = coinbase::legacy_bytes(view);
    bytes::lemma_le_len(view.version as nat, 4);
    bytes::lemma_le_len(view.lock_time as nat, 4);
    let middle = coinbase::input_head(view.script_sig.len()) + view.script_sig
        + coinbase::input_tail(view);
    assert(tx =~= bytes::le(view.version as nat, 4) + middle + bytes::le(
        view.lock_time as nat,
        4,
    ));
    let end = tx.len() - 4;
    assert(tx.take(4) =~= bytes::le(view.version as nat, 4));
    assert(tx.subrange(4, end) =~= middle);
    assert(tx.skip(end) =~= bytes::le(view.lock_time as nat, 4));
    assert(with_witness(tx) =~= coinbase::segwit_bytes(view));
}

/// The template's transactions on the wire, one behind the other.
pub open spec fn transaction_data(transactions: Seq<TemplateTransaction>) -> Seq<u8>
    decreases transactions.len(),
{
    if transactions.len() == 0 {
        Seq::empty()
    } else {
        transaction_data(transactions.drop_last()) + hexadecimal::decoded(
            transactions.last().data@,
        )->0
    }
}

/// Whether the data of every transaction can be read.
pub open spec fn data_ok(transactions: Seq<TemplateTransaction>) -> bool {
    forall|i: int|
        0 <= i < transactions.len() ==> hexadecimal::decoded(
            (#[trigger] transactions[i]).data@,
        ) is Some
}

/// The coinbase of a solution of the template, without witness data.
pub open spec fn plain_coinbase(
    template: BlockTemplate,
    solution: node_ipc::SolutionView,
) -> Seq<u8> {
    if template.default_witness_commitment is Some {
        without_witness(solution.coinbase_tx)
    } else {
        solution.coinbase_tx
    }
}

/// The header of a solution of the template.
pub open spec fn solution_header(
    template: BlockTemplate,
    solution: node_ipc::SolutionView,
) -> Seq<u8> {
    header_bytes(
        solution.version,
        jobs::internal_hash(template.previousblockhash@),
        merkle::climb(
            merkle::sha256d(plain_coinbase(template, solution)),
            merkle::branch(jobs::tx_hashes(template.transactions@)),
        ),
        solution.header_timestamp,
        hexadecimal::parsed(template.bits@)->0 as u32,
        solution.header_nonce,
    )
}

/// The block that a solution of the template makes: the header, the number of
/// transactions, the coinbase and the template's transactions. None where a hash, the
/// bits or a transaction of the template cannot be read, or the coinbase is too short
/// to hold a witness where the template commits to witnesses.
pub open spec fn solved_block(
    template: BlockTemplate,
    solution: node_ipc::SolutionView,
) -> Option<Seq<u8>> {
    let readable = {
        &&& stratum_sv2::header_fields_ok(template)
        &&& jobs::coinbase_inputs_ok(template)
        &&& data_ok(template.transactions@)
        &&& template.transactions@.len() < usize::MAX
    };
    let whole = template.default_witness_commitment is Some ==> solution.coinbase_tx.len() >= 44;
    if readable && whole {
        Some(
            solution_header(template, solution) + bytes::compact_size(
                1 + template.transactions@.len(),
            ) + solution.coinbase_tx + transaction_data(template.transactions@),
        )
    } else {
        None
    }
}

/// The data of one transaction is what its text spells, and the data of some and then of
/// others is that of all, in their order.
pub proof fn transaction_data_adds_up(
    t: TemplateTransaction,
    a: Seq<TemplateTransaction>,
    b: Seq<TemplateTransaction>,
)
    ensures
        transaction_data(seq![t]) == hexadecimal::decoded(t.data@)->0,
        transaction_data(a + b) == transaction_data(a) + transaction_data(b),
    decreases b.len(),
{
    reveal_with_fuel(transaction_data, 2);
    assert(seq![t].drop_last() =~= Seq::empty());
    assert(transaction_data(seq![t]) =~= hexadecimal::decoded(t.data@)->0);
    if b.len() == 0 {
        assert(a + b =~= a);
        assert(transaction_data(a) + transaction_data(b) =~= transaction_data(a));
    } else {
        transaction_data_adds_up(t, a, b.drop_last());
        assert((a + b).drop_last() =~= a + b.drop_last());
        assert(transaction_data(a + b) =~= transaction_data(a) + transaction_data(b));
    }
}

/// A block is put together exactly where the template's previous hash and transaction ids
/// are hashes, its bits a 32-bit number, its commitment and its transactions' data
/// hexadecimal, and the coinbase long enough for its witness where there is a commitment.
pub proof fn what_a_block_needs(template: BlockTemplate, solution: node_ipc::SolutionView)
    requires
        template.transactions@.len() < usize::MAX,
    ensures
        solved_block(template, solution) is Some <==> {
            let hash = hexadecimal::decoded(template.previousblockhash@);
            let bits = hexadecimal::parsed(template.bits@);
            &&& hash is Some && hash->0.len() == 32
            &&& bits is Some && bits->0 <= u32::MAX
            &&& template.default_witness_commitment matches Some(text) ==> hexadecimal::decoded(
                text@,
            ) is Some && solution.coinbase_tx.len() >= 44
            &&& forall|i: int|
                0 <= i < template.transactions@.len() ==> {
                    let t = #[trigger] template.transactions@[i];
                    let id = hexadecimal::decoded(t.txid@);
                    id is Some && id->0.len() == 32 && hexadecimal::decoded(t.data@) is Some
                }
        },
{
    if solved_block(template, solution) is Some {
        assert forall|i: int| 0 <= i < template.transactions@.len() implies {
            let t = #[trigger] template.transactions@[i];
            let id = hexadecimal::decoded(t.txid@);
            id is Some && id->0.len() == 32 && hexadecimal::decoded(t.data@) is Some
        } by {
            assert(jobs::is_hash_text(template.transactions@[i].txid@));
        }
    }
}

/// What a solved block says, read from its bytes: first the header, with the solution's
/// version, time and nonce, the template's previous hash and bits, and the root over the
/// coinbase without its witness and the template's transaction ids; then the number of
/// transactions, the solution's coinbase, and the template's transactions.
pub proof fn solved_block_reads_back(
    template: BlockTemplate,
    solution: node_ipc::SolutionView,
    leaves: Seq<Seq<u8>>,
)
    requires
        solved_block(template, solution) is Some,
        leaves.len() == template.transactions@.len(),
        forall|i: int|
            0 <= i < leaves.len() ==> #[trigger] leaves[i] == hexadecimal::decoded(
                template.transactions@[i].txid@,
            )->0.reverse(),
    ensures
        ({
            let block = solved_block(template, solution)->0;
            let tx = solution.coinbase_tx;
            let plain = if template.default_witness_commitment is Some {
                tx.take(4) + tx.subrange(6, tx.len() - 38) + tx.skip(tx.len() - 4)
            } else {
                tx
            };
            let root = merkle::root(seq![merkle::sha256d(plain)] + leaves);
            let end = (48 + root.len()) as int;
            &&& bytes::le_value(block.subrange(0, 4)) == solution.version
            &&& block.subrange(4, 36) == hexadecimal::decoded(
                template.previousblockhash@,
            )->0.reverse()
            &&& block.subrange(36, end - 12) == root
            &&& bytes::le_value(block.subrange(end - 12, end - 8)) == solution.header_timestamp
            &&& bytes::le_value(block.subrange(end - 8, end - 4)) == hexadecimal::parsed(
                template.bits@,
            )->0
            &&& bytes::le_value(block.subrange(end - 4, end)) == solution.header_nonce
            &&& bytes::compact_size_at_front(block.skip(end)) matches Some((count, width)) && count
                == 1 + template.transactions@.len() && block.skip(end + width) == tx
                + transaction_data(template.transactions@)
        }),
{
    let block = solved_block(template, solution)->0;
    let tx = solution.coinbase_tx;
    let plain = plain_coinbase(template, solution);
    let prev_hash = jobs::internal_hash(template.previousblockhash@);
    let nbits = hexadecimal::parsed(template.bits@)->0 as u32;
    let root = merkle::root(seq![merkle::sha256d(plain)] + leaves);
    let header = solution_header(template, solution);
    let end = header.len() as int;
    jobs::leaves_are_the_txids(template.transactions@, leaves, merkle::sha256d(plain));
    header_reads_back(
        solution.version,
        prev_hash,
        root,
        solution.header_timestamp,
        nbits,
        solution.header_nonce,
    );
    let count = bytes::compact_size(1 + template.transactions@.len());
    let data = transaction_data(template.transactions@);
    assert(block =~= header + (count + (tx + data)));
    assert(block.subrange(0, 4) =~= header.subrange(0, 4));
    assert(block.subrange(4, 36) =~= header.subrange(4, 36));
    assert(block.subrange(36, end - 12) =~= header.subrange(36, end - 12));
    assert(block.subrange(end - 12, end - 8) =~= header.subrange(end - 12, end - 8));
    assert(block.subrange(end - 8, end - 4) =~= header.subrange(end - 8, end - 4));
    assert(block.subrange(end - 4, end) =~= header.subrange(end - 4, end));
    assert(block.skip(end) =~= count + (tx + data));
    bytes::size_prefix_reads_back(1 + template.transactions@.len(), tx + data);
    assert(block.skip(end + count.len()) =~= tx + data);
}

fn join_transactions(transactions: &Vec<TemplateTransaction>) -> (out: Option<Vec<u8>>)
    ensures
        match out {
            Some(data) => data_ok(transactions@) && data@ == transaction_data(transactions@),
            None => !data_ok(transactions@),
        },
{
    let mut data: Vec<u8> = Vec::new();
    let mut i: usize = 0;
    while i < transactions.len()
        invariant
            i <= transactions@.len(),
            data@ == transaction_data(transactions@.take(i as int)),
            forall|j: int|
                0 <= j < i ==> hexadecimal::decoded((#[trigger] transactions@[j]).data@) is Some,
        decreases transactions@.len() - i,
    {
        match hexadecimal::decode(transactions[i].data.as_str()) {
            Some(bytes) => {
                data.extend_from_slice(bytes.as_slice());
            },
            None => {
                assert(hexadecimal::decoded(transactions@[i as int].data@) is None);
                return None;
            },
        }
        i = i + 1;
        proof {
            let longer = transactions@.take(i as int);
            assert(longer.drop_last() =~= transactions@.take(i - 1));
            assert(longer.last() == transactions@[i - 1]);
        }
    }
    assert(transactions@.take(i as int) =~= transactions@);
    Some(data)
}

fn take_out_witness(tx: &Vec<u8>) -> (out: Vec<u8>)
    requires
        tx@.len() >= 44,
    ensures
        out@ == without_witness(tx@),
{
    let end: usize = tx.len() - 4;
    let mut out: Vec<u8> = Vec::new();
    out.extend_from_slice(vstd::slice::slice_subrange(tx.as_slice(), 0, 4));
    out.extend_from_slice(vstd::slice::slice_subrange(tx.as_slice(), 6, end - 34));
    out.extend_from_slice(vstd::slice::slice_subrange(tx.as_slice(), end, tx.len()));
    assert(out@ =~= without_witness(tx@));
    out
}

/// The block that a solution of the template makes, as the node takes it.
pub fn solve_block(template: &BlockTemplate, solution: &SubmitSolutionData) -> (out: Option<
    Vec<u8>,
>)
    ensures
        match out {
            Some(block) => solved_block(*template, solution@) == Some(block@),
            None => solved_block(*template, solution@) is None,
        },
{
    if !stratum_sv2::check_header_fields(template) || !jobs::check_coinbase_inputs(template) {
        return None;
    }
    let count: usize = template.transactions.len();
    let has_witness: bool = template.default_witness_commitment.is_some();
    if count == usize::MAX || has_witness && solution.coinbase_tx.len() < 44 {
        return None;
    }
    let data: Vec<u8> = match join_transactions(&template.transactions) {
        Some(data) => data,
        None => {
            return None;
        },
    };
    let (display, nbits): (Vec<u8>, u32) = match (
        hexadecimal::decode(template.previousblockhash.as_str()),
        hexadecimal::parse_u32(template.bits.as_str()),
    ) {
        (Some(display), Some(nbits)) => (display, nbits),
        _ => {
            assert(false);
            return None;
        },
    };
    let internal: Vec<u8> = bytes::reversed(&display);
    let prev_hash: [u8; 32] = jobs::to_array32(&internal);
    let path: Vec<[u8; 32]> = jobs::build_merkle_branch(template.transactions.as_slice());
    let leaf: [u8; 32] = if has_witness {
        let plain: Vec<u8> = take_out_witness(&solution.coinbase_tx);
        merkle::hash_sha256d(plain.as_slice())
    } else {
        merkle::hash_sha256d(solution.coinbase_tx.as_slice())
    };
    let root: [u8; 32] = climb_path(leaf, &path);
    let mut block: Vec<u8> = build_header(
        solution.version,
        &prev_hash,
        &root,
        solution.header_timestamp,
        nbits,
        solution.header_nonce,
    );
    assert(block@ == solution_header(*template, solution@));
    jobs::write_varint(&mut block, count as u64 + 1);
    block.extend_from_slice(solution.coinbase_tx.as_slice());
    block.extend_from_slice(data.as_slice());
    assert(block@ =~= solved_block(*template, solution@)->0);
    Some(block)
}

/// The block of a share's solution has the share's header, so its hash is the one
/// that met the network's target; its coinbase is the one of the share's channel, with
/// its witness where the template commits to witnesses; and it can be made where the
/// template's transactions can be read.
pub proof fn solved_block_is_the_shares(
    share: messages::SubmitView,
    address: Seq<char>,
    template: BlockTemplate,
)
    requires
        share_solution(share, stratum_sv2::job_record(address, Template::Rpc { template })) is Some,
        stratum_sv2::job_error(address, template) is None,
        share.extranonce.len() == SV2_EXTRANONCE2_SIZE,
    ensures
        ({
            let job = stratum_sv2::job_record(address, Template::Rpc { template });
            let solution = share_solution(share, job)->0;
            let view = stratum_sv2::channel_coinbase(
                share.channel_id,
                address,
                share.extranonce,
                template,
            );
            &&& solution.template_id == template.template_id
            &&& solution_header(template, solution) == share_header(share, job)
            &&& solution.coinbase_tx == if template.default_witness_commitment is Some {
                coinbase::segwit_bytes(view)
            } else {
                coinbase::legacy_bytes(view)
            }
            &&& jobs::coinbase_inputs_ok(template) && data_ok(template.transactions@)
                && template.transactions@.len() < usize::MAX ==> solved_block(
                template,
                solution,
            ) is Some
        }),
{
    let view = stratum_sv2::channel_coinbase(share.channel_id, address, share.extranonce, template);
    share_is_of_a_block_that_pays_the_miner(share, address, template);
    lemma_witness_of_a_coinbase(view);
    witness_comes_out_again(coinbase::legacy_bytes(view));
}

} // verus!
