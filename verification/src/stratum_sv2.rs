//! SV2 Mining Protocol server (Extended Channel mode): what the pool answers.
//!
//! A connection starts with a `SetupConnection`. Each `OpenExtendedMiningChannel`
//! after it is answered by its grant and the channel's first job, a change of the
//! block template by a new job for every open channel, and each
//! `SubmitSharesExtended` by the verdict on the share.
use crate::bytes;
use crate::coinbase;
use crate::hexadecimal;
use crate::jobs;
use crate::jobs::{CoinbaseParts, SV2_EXTRANONCE2_SIZE};
use crate::merkle;
use crate::messages;
use crate::messages::{
    NewExtendedMiningJob, OpenExtendedMiningChannelSuccess, Protocol, SetNewPrevHash,
    SetupConnection, B064K_MAX,
};
use crate::node_ipc;
use crate::node_ipc::{RawTemplate, SubmitSolutionData};
use crate::noise_connection;
use crate::noise_connection::{AuthorityResponder, ResponderView};
use crate::rpc::BlockTemplate;
use crate::shares;
use crate::shares::{AcceptedShare, AcceptedView};
use std::collections::HashMap;
use vstd::prelude::*;

verus! {

broadcast use vstd::std_specs::hash::group_hash_axioms;

// ── Pool authority keypair ────────────────────────────────────────────────────

/// A certificate is valid for about a year, in seconds.
pub const CERT_VALIDITY_SECS: u64 = 31_536_000;

/// Static authority keypair used for the Noise NX handshake.
pub struct AuthorityKeypair {
    pub public: [u8; 32],
    pub private: [u8; 32],
}

/// The public key does not belong to the private key, or there is no such
/// private key.
#[derive(Debug, Clone, Copy, PartialEq, Eq, Structural)]
pub struct InvalidKeypair;

impl AuthorityKeypair {
    /// The responder that proves possession of the authority key, with a
    /// certificate valid for about a year.
    pub fn to_responder(&self) -> (out: Result<AuthorityResponder, InvalidKeypair>)
        ensures
            match out {
                Ok(r) => crate::keys::xonly_key(self.private@) == Some(self.public@) && r@
                    == (ResponderView {
                    authority: self.public@,
                    validity_secs: CERT_VALIDITY_SECS,
                }),
                Err(_) => crate::keys::xonly_key(self.private@) != Some(self.public@),
            },
    {
        match noise_connection::responder_from_keys(
            &self.public,
            &self.private,
            CERT_VALIDITY_SECS,
        ) {
            Ok(responder) => Ok(responder),
            Err(_) => Err(InvalidKeypair),
        }
    }
}

// ── Frames in ─────────────────────────────────────────────────────────────────

/// A decrypted frame as it arrives.
pub enum IncomingFrame {
    /// A frame of the handshake, which is over by now.
    HandShake,
    Sv2 { msg_type: u8, channel_msg: bool, payload: Vec<u8> },
}

// ── SetupConnection ───────────────────────────────────────────────────────────

/// The protocol version that the pool speaks.
pub const SUPPORTED_VERSION: u16 = 2;

/// Set in the answer: the pool only accepts extended channels.
pub const REQUIRES_EXTENDED_CHANNELS: u32 = 0x02;

/// Why a connection is not set up.
#[derive(Debug, Clone, Copy, PartialEq, Eq, Structural)]
pub enum SetupError {
    UnexpectedHandshake,
    UnexpectedMessage { msg_type: u8 },
    Malformed,
    UnsupportedProtocol { protocol: Protocol },
    VersionMismatch { min_version: u16, max_version: u16 },
}

/// The answer to the first frame: what is sent, and whether the connection stands.
pub struct SetupAnswer {
    pub reply: Option<Vec<u8>>,
    pub outcome: Result<(), SetupError>,
}

/// The error that a first frame meets, or none.
pub open spec fn setup_error(frame: IncomingFrame) -> Option<SetupError> {
    match frame {
        IncomingFrame::HandShake => Some(SetupError::UnexpectedHandshake),
        IncomingFrame::Sv2 { msg_type, payload, .. } => if msg_type != messages::SETUP_CONNECTION {
            Some(SetupError::UnexpectedMessage { msg_type })
        } else {
            match messages::setup_at_front(payload@) {
                None => Some(SetupError::Malformed),
                Some(m) => if m.protocol != Protocol::Mining {
                    Some(SetupError::UnsupportedProtocol { protocol: m.protocol })
                } else if !(m.min_version <= SUPPORTED_VERSION <= m.max_version) {
                    Some(
                        SetupError::VersionMismatch {
                            min_version: m.min_version,
                            max_version: m.max_version,
                        },
                    )
                } else {
                    None
                },
            }
        },
    }
}

/// The code by which the client learns of an error; a handshake frame and a
/// message that cannot be read are not answered.
pub open spec fn error_code(error: SetupError) -> Option<Seq<char>> {
    match error {
        SetupError::UnexpectedHandshake => None,
        SetupError::Malformed => None,
        SetupError::UnexpectedMessage { .. } => Some("unsupported-message"@),
        SetupError::UnsupportedProtocol { .. } => Some("unsupported-protocol"@),
        SetupError::VersionMismatch { .. } => Some("protocol-version-mismatch"@),
    }
}

/// The frame that tells the client the code of an error.
pub open spec fn error_frame(code: Seq<char>) -> Seq<u8> {
    messages::frame(
        messages::SETUP_CONNECTION_ERROR,
        false,
        messages::setup_error_payload(0, vstd::utf8::encode_utf8(code)),
    )
}

/// The frame that accepts a connection.
pub open spec fn success_frame() -> Seq<u8> {
    messages::frame(
        messages::SETUP_CONNECTION_SUCCESS,
        false,
        messages::setup_success_payload(SUPPORTED_VERSION, REQUIRES_EXTENDED_CHANNELS),
    )
}

/// The frame that answers a first frame.
pub open spec fn setup_reply(frame: IncomingFrame) -> Option<Seq<u8>> {
    match setup_error(frame) {
        None => Some(success_frame()),
        Some(error) => match error_code(error) {
            Some(code) => Some(error_frame(code)),
            None => None,
        },
    }
}

/// A connection stands exactly for a readable request of the Mining Protocol whose
/// version range holds the pool's version; then, and only then, the answer is the
/// acceptance.
pub proof fn setup_accepts_exactly_its_version(m: messages::SetupView, payload: Vec<u8>)
    requires
        messages::setup_fits(m),
        payload@ == messages::setup_payload(m),
    ensures
        ({
            let frame = IncomingFrame::Sv2 {
        msg_type: messages::SETUP_CONNECTION,
        channel_msg: false,
        payload,
    };
            let good = m.protocol == Protocol::Mining && m.min_version <= 2 <= m.max_version;
            &&& good <==> setup_error(frame) is None
            &&& good <==> setup_reply(frame) == Some(success_frame())
            &&& !good ==> exists|code: Seq<char>| setup_reply(frame) == Some(error_frame(code))
        }),
{
    let frame = IncomingFrame::Sv2 {
        msg_type: messages::SETUP_CONNECTION,
        channel_msg: false,
        payload,
    };
    messages::setup_reads_back(m, Seq::empty());
    assert(messages::setup_payload(m) + Seq::<u8>::empty() =~= payload@);
    if setup_error(frame) is Some {
        let code = error_code(setup_error(frame)->0)->0;
        assert(setup_reply(frame) == Some(error_frame(code)));
        lemma_error_is_no_success(code);
    }
}

proof fn lemma_error_is_no_success(code: Seq<char>)
    ensures
        error_frame(code) != success_frame(),
{
    messages::frame_reads_back(
        messages::SETUP_CONNECTION_ERROR,
        false,
        messages::setup_error_payload(0, vstd::utf8::encode_utf8(code)),
        messages::SETUP_CONNECTION_SUCCESS,
        false,
        messages::setup_success_payload(SUPPORTED_VERSION, REQUIRES_EXTENDED_CHANNELS),
    );
}

fn refuse(code: &str) -> (reply: Vec<u8>)
    requires
        vstd::utf8::encode_utf8(code@).len() <= 255,
    ensures
        reply@ == error_frame(code@),
{
    let payload: Vec<u8> = messages::setup_error_to_bytes(0, code);
    proof {
        bytes::lemma_le_len(0, 4);
    }
    messages::framed(messages::SETUP_CONNECTION_ERROR, false, &payload)
}

proof fn lemma_codes_are_short()
    ensures
        vstd::utf8::encode_utf8("unsupported-message"@).len() <= 255,
        vstd::utf8::encode_utf8("unsupported-protocol"@).len() <= 255,
        vstd::utf8::encode_utf8("protocol-version-mismatch"@).len() <= 255,
{
    reveal_strlit("unsupported-message");
    reveal_strlit("unsupported-protocol");
    reveal_strlit("protocol-version-mismatch");
    vstd::utf8::is_ascii_chars_encode_utf8("unsupported-message"@);
    vstd::utf8::is_ascii_chars_encode_utf8("unsupported-protocol"@);
    vstd::utf8::is_ascii_chars_encode_utf8("protocol-version-mismatch"@);
}

/// Answers the first frame of a connection, which has to be a `SetupConnection`.
pub fn handle_setup_connection(frame: &IncomingFrame) -> (answer: SetupAnswer)
    ensures
        match answer.reply {
            Some(reply) => setup_reply(*frame) == Some(reply@),
            None => setup_reply(*frame) is None,
        },
        match answer.outcome {
            Ok(_) => setup_error(*frame) is None,
            Err(error) => setup_error(*frame) == Some(error),
        },
{
    proof {
        lemma_codes_are_short();
    }
    match frame {
        IncomingFrame::HandShake => SetupAnswer {
            reply: None,
            outcome: Err(SetupError::UnexpectedHandshake),
        },
        IncomingFrame::Sv2 { msg_type, payload, .. } => {
            if *msg_type != messages::SETUP_CONNECTION {
                return SetupAnswer {
                    reply: Some(refuse("unsupported-message")),
                    outcome: Err(SetupError::UnexpectedMessage { msg_type: *msg_type }),
                };
            }
            let m: SetupConnection = match messages::read_setup_connection(payload) {
                Some(m) => m,
                None => {
                    return SetupAnswer { reply: None, outcome: Err(SetupError::Malformed) };
                },
            };
            if m.protocol != Protocol::Mining {
                return SetupAnswer {
                    reply: Some(refuse("unsupported-protocol")),
                    outcome: Err(SetupError::UnsupportedProtocol { protocol: m.protocol }),
                };
            }
            if m.min_version > SUPPORTED_VERSION || m.max_version < SUPPORTED_VERSION {
                return SetupAnswer {
                    reply: Some(refuse("protocol-version-mismatch")),
                    outcome: Err(
                        SetupError::VersionMismatch {
                            min_version: m.min_version,
                            max_version: m.max_version,
                        },
                    ),
                };
            }
            let payload: Vec<u8> = messages::setup_success_to_bytes(
                SUPPORTED_VERSION,
                REQUIRES_EXTENDED_CHANNELS,
            );
            proof {
                bytes::lemma_le_len(SUPPORTED_VERSION as nat, 2);
                bytes::lemma_le_len(REQUIRES_EXTENDED_CHANNELS as nat, 4);
            }
            SetupAnswer {
                reply: Some(messages::framed(messages::SETUP_CONNECTION_SUCCESS, false, &payload)),
                outcome: Ok(()),
            }
        },
    }
}

// ── Per-connection state ──────────────────────────────────────────────────────

/// State for a single open extended channel.
#[derive(Debug, Clone)]
pub struct ChannelInfo {
    pub channel_id: u32,
    /// First 4 bytes of the channel's extranonce prefix.
    pub extranonce1: [u8; 4],
    /// Bitcoin address for this miner's coinbase output.
    pub miner_address: String,
    /// The highest hash of a share that counts, least significant byte first.
    pub target: [u8; 32],
}

/// A job that was sent, as far as a share of it is checked against it.
#[derive(Debug, Clone)]
pub struct SentJob {
    /// The template that the job was built from.
    pub template_id: u64,
    /// In internal byte order.
    pub prev_hash: [u8; 32],
    pub nbits: u32,
    pub merkle_path: Vec<[u8; 32]>,
    pub coinbase_tx_prefix: Vec<u8>,
    pub coinbase_tx_suffix: Vec<u8>,
    /// Whether a block of the job has a coinbase with a witness.
    pub has_witness: bool,
}

/// Mutable state for one connection (multiple channels can be multiplexed).
pub struct ConnectionState {
    pub next_channel_id: u32,
    pub next_job_id: u32,
    pub channels: HashMap<u32, ChannelInfo>,
    /// The jobs that were sent, under their `job_key`, in their order: templates of one
    /// height give a channel's jobs one id.
    pub jobs: HashMap<u64, Vec<SentJob>>,
    /// Fallback payout address when the miner does not supply a valid BTC address.
    pub pool_address: String,
}

#[verifier::ext_equal]
pub struct ChannelView {
    pub channel_id: u32,
    pub extranonce1: Seq<u8>,
    pub miner_address: Seq<char>,
    pub target: Seq<u8>,
}

#[verifier::ext_equal]
pub struct SentJobView {
    pub template_id: u64,
    pub prev_hash: Seq<u8>,
    pub nbits: u32,
    pub merkle_path: Seq<Seq<u8>>,
    pub coinbase_tx_prefix: Seq<u8>,
    pub coinbase_tx_suffix: Seq<u8>,
    pub has_witness: bool,
}

#[verifier::ext_equal]
pub struct ConnectionView {
    pub next_channel_id: u32,
    pub next_job_id: u32,
    pub channels: Map<u32, ChannelView>,
    pub jobs: Map<u64, Seq<SentJobView>>,
    pub pool_address: Seq<char>,
}

impl View for ChannelInfo {
    type V = ChannelView;

    open spec fn view(&self) -> ChannelView {
        ChannelView {
            channel_id: self.channel_id,
            extranonce1: self.extranonce1@,
            miner_address: self.miner_address@,
            target: self.target@,
        }
    }
}

impl View for SentJob {
    type V = SentJobView;

    open spec fn view(&self) -> SentJobView {
        SentJobView {
            template_id: self.template_id,
            prev_hash: self.prev_hash@,
            nbits: self.nbits,
            merkle_path: jobs::hash_views(self.merkle_path@),
            coinbase_tx_prefix: self.coinbase_tx_prefix@,
            coinbase_tx_suffix: self.coinbase_tx_suffix@,
            has_witness: self.has_witness,
        }
    }
}

impl View for ConnectionState {
    type V = ConnectionView;

    open spec fn view(&self) -> ConnectionView {
        ConnectionView {
            next_channel_id: self.next_channel_id,
            next_job_id: self.next_job_id,
            channels: self.channels@.map_values(|c: ChannelInfo| c@),
            jobs: self.jobs@.map_values(|kept: Vec<SentJob>| sent_views(kept@)),
            pool_address: self.pool_address@,
        }
    }
}

pub open spec fn sent_views(kept: Seq<SentJob>) -> Seq<SentJobView> {
    kept.map_values(|j: SentJob| j@)
}

/// The jobs that are kept at a place, in the order in which they were sent.
pub open spec fn jobs_at(jobs: Map<u64, Seq<SentJobView>>, key: u64) -> Seq<SentJobView> {
    if jobs.contains_key(key) {
        jobs[key]
    } else {
        Seq::empty()
    }
}

/// The jobs that are kept once one more was sent.
pub open spec fn with_job(
    jobs: Map<u64, Seq<SentJobView>>,
    key: u64,
    job: SentJobView,
) -> Map<u64, Seq<SentJobView>> {
    jobs.insert(key, jobs_at(jobs, key).push(job))
}

/// A job that was sent is kept behind those of its place, and nothing else changes.
pub proof fn keeping_a_job(
    jobs: Map<u64, Seq<SentJobView>>,
    key: u64,
    job: SentJobView,
    other: u64,
)
    ensures
        ({
            let after = with_job(jobs, key, job);
            &&& after.contains_key(key) && after[key].last() == job
            &&& jobs.contains_key(key) ==> after[key].drop_last() == jobs[key]
            &&& !jobs.contains_key(key) ==> after[key].len() == 1
            &&& other != key ==> after.contains_key(other) == jobs.contains_key(other)
            &&& other != key && jobs.contains_key(other) ==> after[other] == jobs[other]
        }),
{
    let after = with_job(jobs, key, job);
    if jobs.contains_key(key) {
        assert(after[key].drop_last() =~= jobs[key]);
    }
}

/// A connection is seen as it is: every channel and every job that is kept, each in its
/// place and with all its fields.
pub proof fn connections_are_seen_as_they_are(
    state: ConnectionState,
    channel: ChannelInfo,
    job: SentJob,
    id: u32,
    key: u64,
    i: int,
)
    ensures
        state@.next_channel_id == state.next_channel_id && state@.next_job_id == state.next_job_id
            && state@.pool_address == state.pool_address@,
        state@.channels.contains_key(id) == state.channels@.contains_key(id),
        state.channels@.contains_key(id) ==> state@.channels[id] == state.channels@[id]@,
        state@.jobs.contains_key(key) == state.jobs@.contains_key(key),
        state.jobs@.contains_key(key) ==> state@.jobs[key].len() == state.jobs@[key]@.len(),
        state.jobs@.contains_key(key) && 0 <= i < state.jobs@[key]@.len() ==> state@.jobs[key][i]
            == state.jobs@[key]@[i]@,
        channel@.channel_id == channel.channel_id && channel@.extranonce1 == channel.extranonce1@
            && channel@.miner_address == channel.miner_address@ && channel@.target
            == channel.target@,
        job@.template_id == job.template_id && job@.prev_hash == job.prev_hash@ && job@.nbits
            == job.nbits && job@.coinbase_tx_prefix == job.coinbase_tx_prefix@
            && job@.coinbase_tx_suffix == job.coinbase_tx_suffix@ && job@.has_witness
            == job.has_witness,
        job@.merkle_path.len() == job.merkle_path@.len(),
        0 <= i < job.merkle_path@.len() ==> job@.merkle_path[i] == job.merkle_path@[i]@,
{
}

/// Where the jobs of a channel with an id are kept.
pub open spec fn job_key(channel_id: u32, job_id: u32) -> u64 {
    (channel_id * 0x1_0000_0000 + job_id) as u64
}

/// The channel of the jobs that are kept at a place.
pub open spec fn channel_of_key(key: u64) -> u32 {
    (key / 0x1_0000_0000) as u32
}

/// Jobs with different ids, or of different channels, are not kept at one place.
pub proof fn job_keys_are_distinct(channel_a: u32, job_a: u32, channel_b: u32, job_b: u32)
    ensures
        job_key(channel_a, job_a) == job_key(channel_b, job_b) <==> channel_a == channel_b && job_a
            == job_b,
        channel_of_key(job_key(channel_a, job_a)) == channel_a,
{
}

pub(crate) fn place_of(channel_id: u32, job_id: u32) -> (key: u64)
    ensures
        key == job_key(channel_id, job_id),
{
    channel_id as u64 * 0x1_0000_0000 + job_id as u64
}

impl ConnectionView {
    /// Every channel stands under its own id, has the extranonce prefix of that id,
    /// and has an id that was given out; every job belongs to an open channel.
    pub open spec fn well_formed(self) -> bool {
        &&& forall|id: u32| #[trigger]
            self.channels.contains_key(id) ==> {
                &&& self.channels[id].channel_id == id
                &&& self.channels[id].extranonce1 == bytes::le(id as nat, 4)
                &&& id < self.next_channel_id
            }
        &&& forall|key: u64| #[trigger]
            self.jobs.contains_key(key) ==> self.jobs[key].len() > 0 && self.channels.contains_key(
                channel_of_key(key),
            )
    }
}

impl ConnectionState {
    pub fn new(pool_address: String) -> (state: Self)
        ensures
            state@ == (ConnectionView {
                next_channel_id: 0,
                next_job_id: 1,
                channels: Map::empty(),
                jobs: Map::empty(),
                pool_address: pool_address@,
            }),
            state@.well_formed(),
    {
        let state: Self = Self {
            next_channel_id: 0,
            next_job_id: 1,
            channels: HashMap::new(),
            jobs: HashMap::new(),
            pool_address,
        };
        assert(state@.channels =~= Map::empty());
        assert(state@.jobs =~= Map::empty());
        state
    }

    /// Gives out the next channel id.
    pub fn alloc_channel_id(&mut self) -> (id: u32)
        requires
            old(self).next_channel_id < u32::MAX,
        ensures
            id == old(self)@.next_channel_id,
            final(self)@ == (ConnectionView {
                next_channel_id: (id + 1) as u32,
                ..old(self)@
            }),
    {
        let id: u32 = self.next_channel_id;
        self.next_channel_id = id + 1;
        id
    }

    /// Gives out the next job id.
    pub fn alloc_job_id(&mut self) -> (id: u32)
        requires
            old(self).next_job_id < u32::MAX,
        ensures
            id == old(self)@.next_job_id,
            final(self)@ == (ConnectionView { next_job_id: (id + 1) as u32, ..old(self)@ }),
    {
        let id: u32 = self.next_job_id;
        self.next_job_id = id + 1;
        id
    }

    /// The ids of the open channels, in whatever order the map gives them.
    pub fn channel_ids(&self) -> (ids: Vec<u32>)
        ensures
            ids@.no_duplicates(),
            ids@.to_set() == self@.channels.dom(),
    {
        let mut ids: Vec<u32> = Vec::new();
        let ghost keys = vstd::std_specs::iter::IteratorSpec::remaining(
            &vstd::std_specs::hash::spec_keys_iter(&self.channels),
        );
        for id in it: self.channels.keys()
            invariant
                it.seq() == keys,
                ids@.len() == it.index(),
                forall|j: int| 0 <= j < ids@.len() ==> ids@[j] == *keys[j],
        {
            ids.push(*id);
        }
        proof {
            assert(ids@ =~= keys.unref());
            assert(self@.channels.dom() =~= self.channels@.dom());
            assert(ids@.no_duplicates());
        }
        ids
    }

    /// Keeps a job that was sent, behind those of its channel and id.
    fn remember(&mut self, channel_id: u32, job_id: u32, job: SentJob)
        ensures
            final(self)@ == (ConnectionView {
                jobs: with_job(old(self)@.jobs, job_key(channel_id, job_id), job@),
                ..old(self)@
            }),
    {
        let ghost held = self.jobs@;
        let ghost before = self@.jobs;
        let ghost added = job@;
        let key: u64 = place_of(channel_id, job_id);
        let mut kept: Vec<SentJob> = match self.jobs.remove(&key) {
            Some(kept) => kept,
            None => Vec::new(),
        };
        proof {
            assert(self.jobs@ =~= held.remove(key));
            assert(sent_views(kept@) =~= jobs_at(before, key));
        }
        kept.push(job);
        assert(sent_views(kept@) =~= jobs_at(before, key).push(added));
        self.jobs.insert(key, kept);
        assert(self@.jobs =~= with_job(before, key, added));
    }
}

// ── Job construction ──────────────────────────────────────────────────────────

/// Why no job can be built for a channel.
#[derive(Debug, Clone, Copy, PartialEq, Eq, Structural)]
pub enum JobError {
    PrevHashNotHex,
    PrevHashLength,
    BadBits,
    InvalidMinerAddress,
    CoinbaseSuffixTooLarge,
}

/// Whether the template's previous hash and its bits can be read.
pub open spec fn header_fields_ok(template: BlockTemplate) -> bool {
    &&& jobs::is_hash_text(template.previousblockhash@)
    &&& bits_ok(template)
}

/// Whether the template's bits are a 32-bit number in base 16.
pub open spec fn bits_ok(template: BlockTemplate) -> bool {
    hexadecimal::parsed(template.bits@) matches Some(n) && n <= u32::MAX
}

/// The coinbase piece behind the extranonce for a miner at `address`.
pub open spec fn coinbase_suffix(address: Seq<char>, template: BlockTemplate) -> Seq<u8> {
    coinbase::after_extranonce(
        template.coinbasevalue as u64,
        jobs::address_script(address)->0,
        jobs::commitment_script(template),
    )
}

/// The error that a job for a miner at `address` meets, or none.
pub open spec fn job_error(address: Seq<char>, template: BlockTemplate) -> Option<JobError> {
    if hexadecimal::decoded(template.previousblockhash@) is None {
        Some(JobError::PrevHashNotHex)
    } else if !jobs::is_hash_text(template.previousblockhash@) {
        Some(JobError::PrevHashLength)
    } else if !bits_ok(template) {
        Some(JobError::BadBits)
    } else if jobs::address_script(address) is None {
        Some(JobError::InvalidMinerAddress)
    } else if coinbase_suffix(address, template).len() > B064K_MAX {
        Some(JobError::CoinbaseSuffixTooLarge)
    } else {
        None
    }
}

/// Whether building a job for a miner at `address` gets as far as the template's
/// witness commitment and transaction ids.
pub open spec fn reaches_coinbase(address: Seq<char>, template: BlockTemplate) -> bool {
    header_fields_ok(template) && jobs::address_script(address) is Some
}

/// The block that a job builds on.
pub open spec fn prev_hash_message(
    channel_id: u32,
    job_id: u32,
    template: BlockTemplate,
) -> messages::PrevHashView {
    messages::PrevHashView {
        channel_id,
        job_id,
        prev_hash: jobs::internal_hash(template.previousblockhash@),
        min_ntime: template.curtime,
        nbits: hexadecimal::parsed(template.bits@)->0 as u32,
    }
}

/// The job itself, to be worked on at once.
pub open spec fn job_message(
    channel_id: u32,
    address: Seq<char>,
    job_id: u32,
    template: BlockTemplate,
) -> messages::JobView {
    messages::JobView {
        channel_id,
        job_id,
        min_ntime: Some(template.curtime),
        version: template.version,
        version_rolling_allowed: true,
        merkle_path: merkle::branch(jobs::tx_hashes(template.transactions@)),
        coinbase_tx_prefix: coinbase::before_extranonce(
            template.height,
            jobs::SV2_EXTRANONCE_TOTAL as nat,
        ),
        coinbase_tx_suffix: coinbase_suffix(address, template),
    }
}

proof fn lemma_prefix_is_short(height: u32)
    ensures
        coinbase::before_extranonce(height, 36).len() <= 80,
{
    coinbase::lemma_script_head_len(height);
    bytes::lemma_le_len(1, 4);
    bytes::lemma_le_len(coinbase::script_head(height).len() + 37, 1);
}

proof fn lemma_path_is_short(hashes: Seq<Seq<u8>>)
    requires
        hashes.len() <= usize::MAX,
    ensures
        merkle::branch(hashes).len() <= 64,
{
    let depth = merkle::branch(hashes).len();
    vstd::arithmetic::power2::lemma2_to64();
    merkle::branch_len_is_logarithmic(hashes);
    if depth > 64 {
        let fewer = (depth - 1) as nat;
        vstd::arithmetic::power2::lemma_pow2_unfold(depth);
        if fewer > 64 {
            vstd::arithmetic::power2::lemma_pow2_strictly_increases(64, fewer);
        }
        assert(vstd::arithmetic::power2::pow2(64) <= hashes.len());
    }
}

/// Build `SetNewPrevHash` + `NewExtendedMiningJob` for a single channel.
pub fn build_job_messages(channel: &ChannelInfo, job_id: u32, template: &BlockTemplate) -> (out:
    Result<(SetNewPrevHash, NewExtendedMiningJob), JobError>)
    requires
        reaches_coinbase(channel.miner_address@, *template) ==> jobs::coinbase_inputs_ok(*template),
    ensures
        match out {
            Ok((prev_hash, job)) => {
                &&& job_error(channel.miner_address@, *template) is None
                &&& prev_hash@ == prev_hash_message(channel.channel_id, job_id, *template)
                &&& job@ == job_message(
                    channel.channel_id,
                    channel.miner_address@,
                    job_id,
                    *template,
                )
                &&& messages::job_fits(job@)
            },
            Err(error) => job_error(channel.miner_address@, *template) == Some(error),
        },
{
    let display: Vec<u8> = match hexadecimal::decode(template.previousblockhash.as_str()) {
        Some(data) => data,
        None => {
            return Err(JobError::PrevHashNotHex);
        },
    };
    if display.len() != 32 {
        return Err(JobError::PrevHashLength);
    }
    let internal: Vec<u8> = bytes::reversed(&display);
    let prev_hash: [u8; 32] = jobs::to_array32(&internal);
    let nbits: u32 = match hexadecimal::parse_u32(template.bits.as_str()) {
        Some(n) => n,
        None => {
            return Err(JobError::BadBits);
        },
    };
    let set_prev_hash: SetNewPrevHash = SetNewPrevHash {
        channel_id: channel.channel_id,
        job_id,
        prev_hash,
        min_ntime: template.curtime,
        nbits,
    };
    let miner_script: Vec<u8> = match jobs::script_from_address(channel.miner_address.as_str()) {
        Ok(script) => script,
        Err(_) => {
            return Err(JobError::InvalidMinerAddress);
        },
    };
    let commitment: Option<Vec<u8>> = jobs::template_commitment(template);
    let parts: CoinbaseParts = jobs::build_sv2_coinbase_parts(
        template.height,
        template.coinbasevalue,
        miner_script,
        commitment,
    );
    if parts.coinb2.len() > B064K_MAX {
        return Err(JobError::CoinbaseSuffixTooLarge);
    }
    let merkle_path: Vec<[u8; 32]> = jobs::build_merkle_branch(template.transactions.as_slice());
    proof {
        lemma_prefix_is_short(template.height);
        assert(template.transactions.len() == template.transactions@.len());
        lemma_path_is_short(jobs::tx_hashes(template.transactions@));
        assert(jobs::hash_views(merkle_path@) == merkle_path@.map_values(|h: [u8; 32]| h@));
    }
    let job: NewExtendedMiningJob = NewExtendedMiningJob {
        channel_id: channel.channel_id,
        job_id,
        min_ntime: Some(template.curtime),
        version: template.version,
        version_rolling_allowed: true,
        merkle_path,
        coinbase_tx_prefix: parts.coinb1,
        coinbase_tx_suffix: parts.coinb2,
    };
    Ok((set_prev_hash, job))
}

// ── Jobs of either kind of template ───────────────────────────────────────────

/// A template to build jobs from.
#[derive(Debug, Clone)]
pub enum Template {
    /// From the node's RPC interface, with its transactions.
    Rpc { template: BlockTemplate },
    /// From a template provider, with a merkle path in place of the transactions.
    Provided { template: RawTemplate },
}

/// The coinbase piece before the extranonce, from a provider's template.
pub open spec fn provided_prefix(template: RawTemplate) -> Seq<u8> {
    jobs::tdp_before(template@.coinbase_prefix, template@.coinbase_tx_version, false)
}

/// The coinbase piece behind the extranonce for a miner at `address`, from a
/// provider's template: all that is left pays the miner, and the provider's outputs
/// follow.
pub open spec fn provided_suffix(address: Seq<char>, template: RawTemplate) -> Seq<u8> {
    jobs::tdp_after(
        template@.coinbase_tx_input_sequence,
        coinbase::OutputView {
            value: template@.coinbase_tx_value_remaining,
            script_pubkey: jobs::address_script(address)->0,
        },
        template@.coinbase_tx_outputs_count,
        template@.coinbase_tx_outputs,
        template@.coinbase_tx_locktime,
        false,
    )
}

/// The error that a job of a provider's template meets, or none.
pub open spec fn provided_error(address: Seq<char>, template: RawTemplate) -> Option<JobError> {
    if jobs::address_script(address) is None {
        Some(JobError::InvalidMinerAddress)
    } else if provided_suffix(address, template).len() > B064K_MAX {
        Some(JobError::CoinbaseSuffixTooLarge)
    } else {
        None
    }
}

/// The block that a job of a provider's template builds on.
pub open spec fn provided_prev_hash(
    channel_id: u32,
    job_id: u32,
    template: RawTemplate,
) -> messages::PrevHashView {
    messages::PrevHashView {
        channel_id,
        job_id,
        prev_hash: template@.prev_hash,
        min_ntime: template@.header_timestamp,
        nbits: template@.n_bits,
    }
}

/// A job of a provider's template, to be worked on at once.
pub open spec fn provided_job(
    channel_id: u32,
    address: Seq<char>,
    job_id: u32,
    template: RawTemplate,
) -> messages::JobView {
    messages::JobView {
        channel_id,
        job_id,
        min_ntime: Some(template@.header_timestamp),
        version: template@.version,
        version_rolling_allowed: true,
        merkle_path: template@.merkle_path,
        coinbase_tx_prefix: provided_prefix(template),
        coinbase_tx_suffix: provided_suffix(address, template),
    }
}

impl Template {
    /// The error that a job for a miner at `address` meets, or none.
    pub open spec fn error(self, address: Seq<char>) -> Option<JobError> {
        match self {
            Template::Rpc { template } => job_error(address, template),
            Template::Provided { template } => provided_error(address, template),
        }
    }

    /// The block that a job builds on.
    pub open spec fn prev_hash(self, channel_id: u32, job_id: u32) -> messages::PrevHashView {
        match self {
            Template::Rpc { template } => prev_hash_message(channel_id, job_id, template),
            Template::Provided { template } => provided_prev_hash(channel_id, job_id, template),
        }
    }

    /// The job itself, to be worked on at once.
    pub open spec fn job(
        self,
        channel_id: u32,
        address: Seq<char>,
        job_id: u32,
    ) -> messages::JobView {
        match self {
            Template::Rpc { template } => job_message(channel_id, address, job_id, template),
            Template::Provided { template } => provided_job(channel_id, address, job_id, template),
        }
    }

    /// By what a solution names the template.
    pub open spec fn id(self) -> u64 {
        match self {
            Template::Rpc { template } => template.template_id,
            Template::Provided { template } => template@.template_id,
        }
    }

    /// The number that goes into the job ids of a broadcast: the height, or the low
    /// bits of a provider's template id.
    pub open spec fn number(self) -> u32 {
        match self {
            Template::Rpc { template } => template.height,
            Template::Provided { template } => (template@.template_id % 0x1_0000_0000) as u32,
        }
    }

    /// Whether a block of the template has a coinbase with a witness: where the node
    /// gives a commitment, or the provider an output, which is the commitment's.
    pub open spec fn has_witness(self) -> bool {
        match self {
            Template::Rpc { template } => template.default_witness_commitment is Some,
            Template::Provided { template } => template@.coinbase_tx_outputs_count > 0,
        }
    }

    /// The error that the template's target meets, or none.
    pub open spec fn bad_target(self) -> Option<OpenError> {
        match self {
            Template::Rpc { template } => target_error(template),
            Template::Provided { .. } => None,
        }
    }

    /// The template's target, its least significant byte first, as shares are held to it.
    pub open spec fn target(self) -> Seq<u8> {
        match self {
            Template::Rpc { template } => hexadecimal::decoded(template.target@)->0.reverse(),
            Template::Provided { template } => template@.target,
        }
    }

    /// Whether a job for a miner at `address` can be built or refused: a commitment
    /// and transaction ids that can be read, where it gets that far; or a provider's
    /// prefix and path within the limits of its messages.
    pub open spec fn is_ready(self, address: Seq<char>) -> bool {
        match self {
            Template::Rpc { template } => reaches_coinbase(address, template)
                ==> jobs::coinbase_inputs_ok(template),
            Template::Provided { template } => provided_fits(template),
        }
    }
}

/// Whether a provider's template is within the limits of its messages.
pub open spec fn provided_fits(template: RawTemplate) -> bool {
    template@.coinbase_prefix.len() <= 255 && template@.merkle_path.len() <= 255
}

/// What is kept of a job for a miner at `address`.
pub open spec fn job_record(address: Seq<char>, template: Template) -> SentJobView {
    let job = template.job(0, address, 0);
    let prev = template.prev_hash(0, 0);
    SentJobView {
        template_id: template.id(),
        prev_hash: prev.prev_hash,
        nbits: prev.nbits,
        merkle_path: job.merkle_path,
        coinbase_tx_prefix: job.coinbase_tx_prefix,
        coinbase_tx_suffix: job.coinbase_tx_suffix,
        has_witness: template.has_witness(),
    }
}

/// What a readable pair of provider messages gives is within their limits.
pub proof fn provided_templates_fit(
    new_template: Seq<u8>,
    tip: Seq<u8>,
    template: RawTemplate,
)
    requires
        messages::new_template_at_front(new_template) == Some(template.new_template@),
        messages::tip_at_front(tip) == Some(template.set_new_prev_hash@),
    ensures
        provided_fits(template),
{
}

fn copied(hashes: &Vec<[u8; 32]>) -> (out: Vec<[u8; 32]>)
    ensures
        out@ == hashes@,
{
    let mut out: Vec<[u8; 32]> = Vec::new();
    let mut i: usize = 0;
    while i < hashes.len()
        invariant
            i <= hashes@.len(),
            out@ == hashes@.take(i as int),
        decreases hashes@.len() - i,
    {
        out.push(hashes[i]);
        i = i + 1;
        assert(out@ =~= hashes@.take(i as int));
    }
    assert(hashes@.take(i as int) =~= hashes@);
    out
}

/// Builds the two messages of a job from a provider's template.
pub fn build_provided_job(channel: &ChannelInfo, job_id: u32, template: &RawTemplate) -> (out:
    Result<(SetNewPrevHash, NewExtendedMiningJob), JobError>)
    requires
        provided_fits(*template),
    ensures
        match out {
            Ok((prev_hash, job)) => {
                &&& provided_error(channel.miner_address@, *template) is None
                &&& prev_hash@ == provided_prev_hash(channel.channel_id, job_id, *template)
                &&& job@ == provided_job(
                    channel.channel_id,
                    channel.miner_address@,
                    job_id,
                    *template,
                )
                &&& messages::job_fits(job@)
            },
            Err(error) => provided_error(channel.miner_address@, *template) == Some(error),
        },
{
    let miner_script: Vec<u8> = match jobs::script_from_address(channel.miner_address.as_str()) {
        Ok(script) => script,
        Err(_) => {
            return Err(JobError::InvalidMinerAddress);
        },
    };
    let new_template: &node_ipc::NewTemplate = &template.new_template;
    let parts: CoinbaseParts = jobs::build_sv2_coinbase_from_tdp(
        new_template.coinbase_prefix.as_slice(),
        new_template.coinbase_tx_version,
        new_template.coinbase_tx_input_sequence,
        new_template.coinbase_tx_value_remaining,
        new_template.coinbase_tx_outputs_count,
        new_template.coinbase_tx_outputs.as_slice(),
        new_template.coinbase_tx_locktime,
        miner_script,
        false,
    );
    if parts.coinb2.len() > B064K_MAX {
        return Err(JobError::CoinbaseSuffixTooLarge);
    }
    let set_prev_hash: SetNewPrevHash = SetNewPrevHash {
        channel_id: channel.channel_id,
        job_id,
        prev_hash: template.set_new_prev_hash.prev_hash,
        min_ntime: template.set_new_prev_hash.header_timestamp,
        nbits: template.set_new_prev_hash.n_bits,
    };
    let job: NewExtendedMiningJob = NewExtendedMiningJob {
        channel_id: channel.channel_id,
        job_id,
        min_ntime: Some(template.set_new_prev_hash.header_timestamp),
        version: new_template.version,
        version_rolling_allowed: true,
        merkle_path: copied(&new_template.merkle_path),
        coinbase_tx_prefix: parts.coinb1,
        coinbase_tx_suffix: parts.coinb2,
    };
    proof {
        bytes::lemma_le_len(new_template.coinbase_tx_version as nat, 4);
        bytes::lemma_compact_size_len(new_template.coinbase_prefix@.len() + 36);
        assert(job@.merkle_path =~= template@.merkle_path);
        assert(job@ =~= provided_job(
            channel.channel_id,
            channel.miner_address@,
            job_id,
            *template,
        ));
    }
    Ok((set_prev_hash, job))
}

impl Template {
    /// Builds the two messages of a job.
    fn build_messages(&self, channel: &ChannelInfo, job_id: u32) -> (out: Result<
        (SetNewPrevHash, NewExtendedMiningJob),
        JobError,
    >)
        requires
            self.is_ready(channel.miner_address@),
        ensures
            match out {
                Ok((prev_hash, job)) => {
                    &&& self.error(channel.miner_address@) is None
                    &&& prev_hash@ == self.prev_hash(channel.channel_id, job_id)
                    &&& job@ == self.job(channel.channel_id, channel.miner_address@, job_id)
                    &&& messages::job_fits(job@)
                },
                Err(error) => self.error(channel.miner_address@) == Some(error),
            },
    {
        match self {
            Template::Rpc { template } => build_job_messages(channel, job_id, template),
            Template::Provided { template } => build_provided_job(channel, job_id, template),
        }
    }

    /// What is kept of a job that goes out in these two messages.
    fn record(&self, prev_hash: &SetNewPrevHash, job: &NewExtendedMiningJob) -> (record: SentJob)
        ensures
            record@ == (SentJobView {
                template_id: self.id(),
                prev_hash: prev_hash@.prev_hash,
                nbits: prev_hash@.nbits,
                merkle_path: job@.merkle_path,
                coinbase_tx_prefix: job@.coinbase_tx_prefix,
                coinbase_tx_suffix: job@.coinbase_tx_suffix,
                has_witness: self.has_witness(),
            }),
    {
        let (template_id, has_witness): (u64, bool) = match self {
            Template::Rpc { template } => (
                template.template_id,
                template.default_witness_commitment.is_some(),
            ),
            Template::Provided { template } => (
                template.new_template.template_id,
                template.new_template.coinbase_tx_outputs_count > 0,
            ),
        };
        let record: SentJob = SentJob {
            template_id,
            prev_hash: prev_hash.prev_hash,
            nbits: prev_hash.nbits,
            merkle_path: copied(&job.merkle_path),
            coinbase_tx_prefix: job.coinbase_tx_prefix.clone(),
            coinbase_tx_suffix: job.coinbase_tx_suffix.clone(),
            has_witness,
        };
        assert(jobs::hash_views(record.merkle_path@) =~= job@.merkle_path);
        record
    }

    /// Reads the template's target.
    fn read_target(&self) -> (out: Result<[u8; 32], OpenError>)
        ensures
            match out {
                Ok(target) => self.bad_target() is None && target@ == self.target(),
                Err(error) => self.bad_target() == Some(error),
            },
    {
        match self {
            Template::Rpc { template } => template_target(template),
            Template::Provided { template } => Ok(template.set_new_prev_hash.target),
        }
    }

    fn low_number(&self) -> (number: u32)
        ensures
            number == self.number(),
    {
        match self {
            Template::Rpc { template } => template.height,
            Template::Provided { template } => (template.new_template.template_id
                % 0x1_0000_0000) as u32,
        }
    }

    fn check_ready(&self, address: &str) -> (ok: bool)
        ensures
            ok == self.is_ready(address@),
    {
        match self {
            Template::Rpc { template } => {
                let reaches: bool = check_header_fields(template) && jobs::script_from_address(
                    address,
                ).is_ok();
                !reaches || jobs::check_coinbase_inputs(template)
            },
            Template::Provided { template } => {
                proof {
                    assert(template@.merkle_path.len() == template.new_template.merkle_path@.len());
                }
                template.new_template.coinbase_prefix.len() <= 255
                    && template.new_template.merkle_path.len() <= 255
            },
        }
    }
}

// ── Frames out ────────────────────────────────────────────────────────────────

/// The frame of a `SetNewPrevHash`.
pub open spec fn prev_hash_frame(m: messages::PrevHashView) -> Seq<u8> {
    messages::frame(messages::MINING_SET_NEW_PREV_HASH, true, messages::prev_hash_payload(m))
}

/// The frame of a `NewExtendedMiningJob`.
pub open spec fn job_frame(m: messages::JobView) -> Seq<u8> {
    messages::frame(messages::NEW_EXTENDED_MINING_JOB, true, messages::job_payload(m))
}

fn encode_prev_hash(m: &SetNewPrevHash) -> (out: Vec<u8>)
    ensures
        out@ == prev_hash_frame(m@),
{
    let payload: Vec<u8> = messages::prev_hash_to_bytes(m);
    proof {
        bytes::lemma_le_len(m.channel_id as nat, 4);
        bytes::lemma_le_len(m.job_id as nat, 4);
        bytes::lemma_le_len(m.min_ntime as nat, 4);
        bytes::lemma_le_len(m.nbits as nat, 4);
    }
    messages::framed(messages::MINING_SET_NEW_PREV_HASH, true, &payload)
}

proof fn lemma_joined_len(hashes: Seq<Seq<u8>>)
    requires
        forall|i: int| 0 <= i < hashes.len() ==> (#[trigger] hashes[i]).len() == 32,
    ensures
        messages::joined(hashes).len() == 32 * hashes.len(),
    decreases hashes.len(),
{
    if hashes.len() > 0 {
        lemma_joined_len(hashes.drop_first());
    }
}

fn encode_job(m: &NewExtendedMiningJob) -> (out: Vec<u8>)
    requires
        messages::job_fits(m@),
    ensures
        out@ == job_frame(m@),
{
    let payload: Vec<u8> = messages::job_to_bytes(m);
    proof {
        bytes::lemma_le_len(m.channel_id as nat, 4);
        bytes::lemma_le_len(m.job_id as nat, 4);
        bytes::lemma_le_len(m.version as nat, 4);
        if m.min_ntime is Some {
            bytes::lemma_le_len(m.min_ntime->0 as nat, 4);
        }
        bytes::lemma_le_len(m.coinbase_tx_prefix@.len(), 2);
        bytes::lemma_le_len(m.coinbase_tx_suffix@.len(), 2);
        lemma_joined_len(m@.merkle_path);
    }
    messages::framed(messages::NEW_EXTENDED_MINING_JOB, true, &payload)
}

// ── OpenExtendedMiningChannel ─────────────────────────────────────────────────

/// Whether `at` is the place of the first dot, or the end where there is none.
pub open spec fn ends_at_dot(text: Seq<char>, at: int) -> bool {
    &&& 0 <= at <= text.len()
    &&& forall|i: int| 0 <= i < at ==> text[i] != '.'
    &&& at < text.len() ==> text[at] == '.'
}

/// What stands before the first dot.
pub open spec fn before_dot(text: Seq<char>) -> Seq<char>
    decreases text.len(),
{
    if text.len() == 0 || text[0] == '.' {
        Seq::empty()
    } else {
        seq![text[0]] + before_dot(text.drop_first())
    }
}

/// The payout address of a miner: what stands before the first dot of its
/// identity where that is an address, else the pool's.
pub open spec fn payout_address(identity: Seq<char>, pool_address: Seq<char>) -> Seq<char> {
    if jobs::address_script(before_dot(identity)) is Some {
        before_dot(identity)
    } else {
        pool_address
    }
}

proof fn lemma_before_dot(text: Seq<char>, at: int)
    requires
        ends_at_dot(text, at),
    ensures
        before_dot(text) == text.take(at),
    decreases text.len(),
{
    if text.len() == 0 || text[0] == '.' {
        assert(at == 0);
        assert(text.take(0) =~= Seq::empty());
    } else {
        let rest = text.drop_first();
        assert forall|i: int| 0 <= i < at - 1 implies rest[i] != '.' by {
            assert(text[i + 1] != '.');
        }
        lemma_before_dot(rest, at - 1);
        assert(text.take(at) =~= seq![text[0]] + rest.take(at - 1));
    }
}

/// An identity `address.worker` pays the address, whatever the worker is called;
/// so does the bare address, for an address has no dot in it.
pub proof fn worker_name_does_not_matter(
    address: Seq<char>,
    worker: Seq<char>,
    pool_address: Seq<char>,
)
    requires
        jobs::address_script(address) is Some,
        forall|i: int| 0 <= i < address.len() ==> address[i] != '.',
    ensures
        payout_address(address, pool_address) == address,
        payout_address(address + seq!['.'] + worker, pool_address) == address,
{
    let full = address + seq!['.'] + worker;
    lemma_before_dot(address, address.len() as int);
    assert(address.take(address.len() as int) =~= address);
    assert(ends_at_dot(full, address.len() as int));
    lemma_before_dot(full, address.len() as int);
    assert(full.take(address.len() as int) =~= address);
}

/// Where the identity names no address, the pool is paid.
pub proof fn unknown_identity_pays_the_pool(identity: Seq<char>, pool_address: Seq<char>)
    requires
        jobs::address_script(before_dot(identity)) is None,
    ensures
        payout_address(identity, pool_address) == pool_address,
{
}

/// Try to extract a Bitcoin address from a Stratum user identity.
///
/// Accepts "address.worker" or just "address". Falls back to `pool_address`
/// if the string cannot be parsed as a valid address.
pub fn parse_miner_address(user_identity: &str, pool_address: &str) -> (address: String)
    ensures
        address@ == payout_address(user_identity@, pool_address@),
{
    let len: usize = user_identity.unicode_len();
    let mut end: usize = 0;
    while end < len && user_identity.get_char(end) != '.'
        invariant
            len == user_identity@.len(),
            end <= len,
            forall|i: int| 0 <= i < end ==> user_identity@[i] != '.',
        decreases len - end,
    {
        end = end + 1;
    }
    let candidate: &str = user_identity.substring_char(0, end);
    proof {
        lemma_before_dot(user_identity@, end as int);
        assert(candidate@ =~= user_identity@.take(end as int));
    }
    if jobs::script_from_address(candidate).is_ok() {
        candidate.to_owned()
    } else {
        pool_address.to_owned()
    }
}

/// Why a channel is not opened, or opened without a job.
#[derive(Debug, Clone, Copy, PartialEq, Eq, Structural)]
pub enum OpenError {
    Malformed,
    TargetNotHex,
    TargetLength,
    Job { error: JobError },
}

/// Why a message ends the connection.
#[derive(Debug, Clone, Copy, PartialEq, Eq, Structural)]
pub enum MessageError {
    UnexpectedHandshake,
    Open { error: OpenError },
    /// A share that cannot be read.
    MalformedShare,
}

/// The error that the template's target meets, or none.
pub open spec fn target_error(template: BlockTemplate) -> Option<OpenError> {
    match hexadecimal::decoded(template.target@) {
        None => Some(OpenError::TargetNotHex),
        Some(data) => if data.len() != 32 {
            Some(OpenError::TargetLength)
        } else {
            None
        },
    }
}

/// Parse the network target from the template's hex `target` field into a U256: the
/// field writes the most significant byte first, a U256 holds it last.
pub fn template_target(template: &BlockTemplate) -> (out: Result<[u8; 32], OpenError>)
    ensures
        match out {
            Ok(target) => target_error(*template) is None && target@ == hexadecimal::decoded(
                template.target@,
            )->0.reverse(),
            Err(error) => target_error(*template) == Some(error),
        },
{
    match hexadecimal::decode(template.target.as_str()) {
        None => Err(OpenError::TargetNotHex),
        Some(data) => if data.len() != 32 {
            Err(OpenError::TargetLength)
        } else {
            Ok(jobs::to_array32(&bytes::reversed(&data)))
        },
    }
}

/// The extranonce prefix of a channel: its id, little-endian, and zeros.
pub open spec fn extranonce_prefix(channel_id: u32) -> Seq<u8> {
    bytes::le(channel_id as nat, 4) + coinbase::run(0x00, 28)
}

/// Two channels with one extranonce prefix are one channel: no two channels of a
/// connection search the same coinbases.
pub proof fn extranonce_prefixes_are_distinct(a: u32, b: u32)
    requires
        extranonce_prefix(a) == extranonce_prefix(b),
    ensures
        a == b,
{
    bytes::lemma_pow256();
    bytes::lemma_le_len(a as nat, 4);
    bytes::lemma_le_len(b as nat, 4);
    assert(extranonce_prefix(a).take(4) =~= bytes::le(a as nat, 4));
    assert(extranonce_prefix(b).take(4) =~= bytes::le(b as nat, 4));
    bytes::lemma_le_injective(a as nat, b as nat, 4);
}

/// About how many seconds a miner shall need for a share at its nominal hash rate:
/// the measure of a channel's target.
pub const SHARE_INTERVAL_SECS: u32 = 30;

/// The target of a channel: the one that its hash rate gives, else the template's.
pub open spec fn granted_target(
    channel_target: Option<[u8; 32]>,
    template: Template,
) -> Seq<u8> {
    match channel_target {
        Some(target) => target@,
        None => template.target(),
    }
}

/// The grant of a channel.
pub open spec fn grant(
    request_id: u32,
    channel_id: u32,
    target: Seq<u8>,
) -> messages::OpenSuccessView {
    messages::OpenSuccessView {
        request_id,
        channel_id,
        target,
        extranonce_size: SV2_EXTRANONCE2_SIZE as u16,
        extranonce_prefix: extranonce_prefix(channel_id),
        group_channel_id: 0,
    }
}

pub open spec fn grant_frame(m: messages::OpenSuccessView) -> Seq<u8> {
    messages::frame(
        messages::OPEN_EXTENDED_MINING_CHANNEL_SUCCESS,
        false,
        messages::open_success_payload(m),
    )
}

/// What a message does: the state after it, the frames sent, the error met, the
/// share that counts and the block that was found.
#[verifier::ext_equal]
pub struct Effect {
    pub state: ConnectionView,
    pub frames: Seq<Seq<u8>>,
    pub error: Option<MessageError>,
    pub share: Option<AcceptedView>,
    pub solution: Option<node_ipc::SolutionView>,
}

/// An effect without a share.
pub open spec fn plain_effect(
    state: ConnectionView,
    frames: Seq<Seq<u8>>,
    error: Option<MessageError>,
) -> Effect {
    Effect { state, frames, error, share: None, solution: None }
}

/// A job that waits for the `SetNewPrevHash` that names it.
pub open spec fn as_future(job: messages::JobView) -> messages::JobView {
    messages::JobView { min_ntime: None, ..job }
}

/// What a readable request for a channel does. The channel id is spent in any
/// case. With a good template target the grant is sent and the channel is open; its
/// first job follows, as a future job that the `SetNewPrevHash` behind it activates,
/// and is kept.
pub open spec fn open_effect(
    state: ConnectionView,
    request: messages::OpenView,
    channel_target: Option<[u8; 32]>,
    template: Template,
) -> Effect {
    let id = state.next_channel_id;
    let spent = ConnectionView { next_channel_id: (id + 1) as u32, ..state };
    match template.bad_target() {
        Some(error) => plain_effect(spent, Seq::empty(), Some(MessageError::Open { error })),
        None => {
            let address = payout_address(
                messages::identity_text(request.user_identity),
                state.pool_address,
            );
            let job_id = state.next_job_id;
            let target = granted_target(channel_target, template);
            let channel = ChannelView {
                channel_id: id,
                extranonce1: bytes::le(id as nat, 4),
                miner_address: address,
                target,
            };
            let after = ConnectionView {
                next_channel_id: (id + 1) as u32,
                next_job_id: (job_id + 1) as u32,
                channels: state.channels.insert(id, channel),
                ..state
            };
            let first = grant_frame(grant(request.request_id, id, target));
            match template.error(address) {
                Some(error) => plain_effect(
                    after,
                    seq![first],
                    Some(MessageError::Open { error: OpenError::Job { error } }),
                ),
                None => plain_effect(
                    ConnectionView {
                        jobs: with_job(
                            state.jobs,
                            job_key(id, job_id),
                            job_record(address, template),
                        ),
                        ..after
                    },
                    seq![
                        first,
                        job_frame(as_future(template.job(id, address, job_id))),
                        prev_hash_frame(template.prev_hash(id, job_id)),
                    ],
                    None,
                ),
            }
        },
    }
}

/// What an `OpenExtendedMiningChannel` does.
pub open spec fn open_payload_effect(
    state: ConnectionView,
    payload: Seq<u8>,
    channel_target: Option<[u8; 32]>,
    template: Template,
) -> Effect {
    match messages::open_at_front(payload) {
        None => plain_effect(
            state,
            Seq::empty(),
            Some(MessageError::Open { error: OpenError::Malformed }),
        ),
        Some(request) => open_effect(state, request, channel_target, template),
    }
}

/// What an open request needs: ids that are left, and, where it gets as far as
/// building the job, a template that is ready for it.
pub open spec fn open_needs(
    state: ConnectionView,
    payload: Seq<u8>,
    template: Template,
) -> bool {
    messages::open_at_front(payload) matches Some(request) ==> {
        &&& state.next_channel_id < u32::MAX
        &&& template.bad_target() is None ==> {
            &&& state.next_job_id < u32::MAX
            &&& template.is_ready(
                payout_address(messages::identity_text(request.user_identity), state.pool_address),
            )
        }
    }
}

/// Frames to send, whether the message was good, the share that counts and the
/// block that was found.
pub struct Reply {
    pub frames: Vec<Vec<u8>>,
    pub outcome: Result<(), MessageError>,
    pub share: Option<AcceptedShare>,
    pub solution: Option<SubmitSolutionData>,
}

pub open spec fn frame_views(frames: Seq<Vec<u8>>) -> Seq<Seq<u8>> {
    frames.map_values(|f: Vec<u8>| f@)
}

impl Reply {
    /// Whether the reply does what the effect says, but for the state.
    pub open spec fn is(self, effect: Effect) -> bool {
        &&& frame_views(self.frames@) == effect.frames
        &&& match self.outcome {
            Ok(_) => effect.error is None,
            Err(e) => effect.error == Some(e),
        }
        &&& shares::accepted_view(self.share) == effect.share
        &&& shares::solution_view(self.solution) == effect.solution
    }
}

/// A reply that does what an effect says sends its frames and no others, in their order,
/// fails exactly where it has an error, with that error, and hands on the share and the
/// block, where there are any.
pub proof fn replies_do_what_the_effect_says(reply: Reply, effect: Effect, i: int)
    requires
        reply.is(effect),
    ensures
        reply.frames@.len() == effect.frames.len(),
        0 <= i < effect.frames.len() ==> reply.frames@[i]@ == effect.frames[i],
        reply.outcome is Ok <==> effect.error is None,
        reply.outcome is Err ==> effect.error == Some(reply.outcome->Err_0),
        reply.share is Some <==> effect.share is Some,
        reply.share is Some ==> effect.share == Some(reply.share->0@),
        reply.solution is Some <==> effect.solution is Some,
        reply.solution is Some ==> effect.solution == Some(reply.solution->0@),
{
    assert(frame_views(reply.frames@).len() == effect.frames.len());
    if 0 <= i < effect.frames.len() {
        assert(frame_views(reply.frames@)[i] == effect.frames[i]);
    }
}

pub(crate) fn plain_reply(frames: Vec<Vec<u8>>, outcome: Result<(), MessageError>) -> (reply: Reply)
    ensures
        reply == (Reply { frames, outcome, share: None, solution: None }),
{
    Reply { frames, outcome, share: None, solution: None }
}

fn le4(value: u32) -> (out: [u8; 4])
    ensures
        out@ == bytes::le(value as nat, 4),
{
    let mut data: Vec<u8> = Vec::new();
    bytes::put_le(&mut data, value as u64, 4);
    proof {
        bytes::lemma_le_len(value as nat, 4);
        assert(data@ =~= bytes::le(value as nat, 4));
    }
    let out: [u8; 4] = [data[0], data[1], data[2], data[3]];
    assert(out@ =~= data@);
    out
}

pub(crate) fn prefix_bytes(channel_id: u32) -> (out: [u8; 32])
    ensures
        out@ == extranonce_prefix(channel_id),
{
    let mut data: Vec<u8> = Vec::new();
    bytes::put_le(&mut data, channel_id as u64, 4);
    let zeros: Vec<u8> = vec![0u8; 28];
    data.extend_from_slice(zeros.as_slice());
    proof {
        bytes::lemma_le_len(channel_id as nat, 4);
        assert(data@ =~= extranonce_prefix(channel_id));
    }
    jobs::to_array32(&data)
}

fn encode_grant(m: &OpenExtendedMiningChannelSuccess) -> (out: Vec<u8>)
    ensures
        out@ == grant_frame(m@),
{
    let payload: Vec<u8> = messages::open_success_to_bytes(m);
    proof {
        bytes::lemma_le_len(m.request_id as nat, 4);
        bytes::lemma_le_len(m.channel_id as nat, 4);
        bytes::lemma_le_len(m.extranonce_size as nat, 2);
        bytes::lemma_le_len(m.group_channel_id as nat, 4);
    }
    messages::framed(messages::OPEN_EXTENDED_MINING_CHANNEL_SUCCESS, false, &payload)
}

/// Opens an extended channel: grants it and sends its first job. The target that the
/// request's hash rate gives is handed in; without one the template's is granted.
pub fn handle_open_extended_mining_channel(
    payload: &Vec<u8>,
    state: &mut ConnectionState,
    channel_target: &Option<[u8; 32]>,
    template: &Template,
) -> (reply: Reply)
    requires
        open_needs(old(state)@, payload@, *template),
    ensures
        ({
            let effect = open_payload_effect(old(state)@, payload@, *channel_target, *template);
            &&& final(state)@ == effect.state
            &&& reply.is(effect)
        }),
{
    let mut frames: Vec<Vec<u8>> = Vec::new();
    let ghost before = state@;
    let request: messages::OpenExtendedMiningChannel = match messages::read_open_channel(payload) {
        Some(m) => m,
        None => {
            assert(frame_views(frames@) =~= Seq::empty());
            return plain_reply(frames, Err(MessageError::Open { error: OpenError::Malformed }));
        },
    };
    assert(request.user_identity@.len() <= 255);
    let user_identity: String = messages::utf8_or_hex(&request.user_identity);
    let miner_address: String = parse_miner_address(
        user_identity.as_str(),
        state.pool_address.as_str(),
    );
    let channel_id: u32 = state.alloc_channel_id();
    let network_target: [u8; 32] = match template.read_target() {
        Ok(target) => target,
        Err(error) => {
            assert(frame_views(frames@) =~= Seq::empty());
            return plain_reply(frames, Err(MessageError::Open { error }));
        },
    };
    let target: [u8; 32] = match channel_target {
        Some(target) => *target,
        None => network_target,
    };
    let success: OpenExtendedMiningChannelSuccess = OpenExtendedMiningChannelSuccess {
        request_id: request.request_id,
        channel_id,
        target,
        extranonce_size: SV2_EXTRANONCE2_SIZE as u16,
        extranonce_prefix: prefix_bytes(channel_id),
        group_channel_id: 0,
    };
    assert(success@ == grant(request.request_id, channel_id, target@));
    frames.push(encode_grant(&success));
    let channel: ChannelInfo = ChannelInfo {
        channel_id,
        extranonce1: le4(channel_id),
        miner_address,
        target,
    };
    let ghost opened = channel@;
    let job_id: u32 = state.alloc_job_id();
    let built: Result<(SetNewPrevHash, NewExtendedMiningJob), JobError> = template.build_messages(
        &channel,
        job_id,
    );
    let ghost held = state.channels@;
    let ghost effect = open_effect(before, request@, *channel_target, *template);
    state.channels.insert(channel_id, channel);
    proof {
        assert(state.channels@.map_values(|c: ChannelInfo| c@) =~= held.map_values(
            |c: ChannelInfo| c@,
        ).insert(channel_id, opened));
    }
    match built {
        Ok((prev_hash, job)) => {
            let mut job: NewExtendedMiningJob = job;
            job.min_ntime = None;
            assert(job@ == as_future(template.job(channel_id, opened.miner_address, job_id)));
            let record: SentJob = template.record(&prev_hash, &job);
            assert(record@ =~= job_record(opened.miner_address, *template));
            state.remember(channel_id, job_id, record);
            frames.push(encode_job(&job));
            frames.push(encode_prev_hash(&prev_hash));
            assert(state@ =~= effect.state);
            assert(frame_views(frames@) =~= effect.frames);
            plain_reply(frames, Ok(()))
        },
        Err(error) => {
            assert(state@ =~= effect.state);
            assert(frame_views(frames@) =~= effect.frames);
            plain_reply(frames, Err(MessageError::Open { error: OpenError::Job { error } }))
        },
    }
}

// ── Message dispatcher ────────────────────────────────────────────────────────

/// What a frame does on a connection that is set up: a request for a channel is
/// served, a share is answered, any other message is passed over.
pub open spec fn frame_effect(
    state: ConnectionView,
    frame: IncomingFrame,
    channel_target: Option<[u8; 32]>,
    template: Template,
) -> Effect {
    match frame {
        IncomingFrame::HandShake => plain_effect(
            state,
            Seq::empty(),
            Some(MessageError::UnexpectedHandshake),
        ),
        IncomingFrame::Sv2 { msg_type, payload, .. } => if msg_type
            == messages::OPEN_EXTENDED_MINING_CHANNEL {
            open_payload_effect(state, payload@, channel_target, template)
        } else if msg_type == messages::SUBMIT_SHARES_EXTENDED {
            shares::submit_effect(state, payload@)
        } else {
            plain_effect(state, Seq::empty(), None)
        },
    }
}

/// What a frame needs: see `open_needs`.
pub open spec fn frame_needs(
    state: ConnectionView,
    frame: IncomingFrame,
    template: Template,
) -> bool {
    frame matches IncomingFrame::Sv2 { msg_type, payload, .. } ==> msg_type
        == messages::OPEN_EXTENDED_MINING_CHANNEL ==> open_needs(state, payload@, template)
}

/// Serves one frame on a connection that is set up. The channel target is that of a
/// channel which the frame may open.
pub fn dispatch_message(
    frame: &IncomingFrame,
    state: &mut ConnectionState,
    channel_target: &Option<[u8; 32]>,
    template: &Template,
) -> (reply: Reply)
    requires
        frame_needs(old(state)@, *frame, *template),
    ensures
        ({
            let effect = frame_effect(old(state)@, *frame, *channel_target, *template);
            &&& final(state)@ == effect.state
            &&& reply.is(effect)
        }),
{
    let frames: Vec<Vec<u8>> = Vec::new();
    assert(frame_views(frames@) =~= Seq::empty());
    match frame {
        IncomingFrame::HandShake => plain_reply(frames, Err(MessageError::UnexpectedHandshake)),
        IncomingFrame::Sv2 { msg_type, payload, .. } => if *msg_type
            == messages::OPEN_EXTENDED_MINING_CHANNEL {
            handle_open_extended_mining_channel(payload, state, channel_target, template)
        } else if *msg_type == messages::SUBMIT_SHARES_EXTENDED {
            shares::answer_share(payload, state)
        } else {
            plain_reply(frames, Ok(()))
        },
    }
}

/// Every frame keeps the state well-formed, never takes back an id, changes no
/// channel that is open, and forgets no job.
pub proof fn frames_keep_the_connection(
    state: ConnectionView,
    frame: IncomingFrame,
    channel_target: Option<[u8; 32]>,
    template: Template,
)
    requires
        state.well_formed(),
        frame_needs(state, frame, template),
    ensures
        ({
            let after = frame_effect(state, frame, channel_target, template).state;
            &&& after.well_formed()
            &&& after.next_channel_id >= state.next_channel_id
            &&& after.next_job_id >= state.next_job_id
            &&& after.pool_address == state.pool_address
            &&& forall|id: u32| #[trigger]
                state.channels.contains_key(id) ==> after.channels.contains_key(id)
                    && after.channels[id] == state.channels[id]
            &&& forall|key: u64| #[trigger]
                state.jobs.contains_key(key) ==> after.jobs.contains_key(key) && after.jobs[key]
                    == state.jobs[key]
        }),
{
    let id = state.next_channel_id;
    let job_id = state.next_job_id;
    job_keys_are_distinct(id, job_id, id, job_id);
    assert(!state.channels.contains_key(id));
    assert(!state.jobs.contains_key(job_key(id, job_id)));
}

/// A granted channel is new: its id was not in use, and no later channel of the
/// connection gets it.
pub proof fn granted_channel_is_new(
    state: ConnectionView,
    request: messages::OpenView,
    channel_target: Option<[u8; 32]>,
    template: Template,
)
    requires
        state.well_formed(),
        state.next_channel_id < u32::MAX,
        template.bad_target() is None,
    ensures
        ({
            let id = state.next_channel_id;
            let after = open_effect(state, request, channel_target, template).state;
            &&& !state.channels.contains_key(id)
            &&& after.channels.contains_key(id)
            &&& after.channels.dom() == state.channels.dom().insert(id)
            &&& after.next_channel_id > id
        }),
{
    let id = state.next_channel_id;
    let after = open_effect(state, request, channel_target, template).state;
    assert(after.channels.dom() =~= state.channels.dom().insert(id));
}

/// The target that a channel is granted is the one that its shares are held to.
pub proof fn granted_target_is_the_channels(
    state: ConnectionView,
    request: messages::OpenView,
    channel_target: Option<[u8; 32]>,
    template: Template,
)
    requires
        template.bad_target() is None,
    ensures
        ({
            let id = state.next_channel_id;
            let effect = open_effect(state, request, channel_target, template);
            let target = granted_target(channel_target, template);
            &&& effect.frames[0] == grant_frame(grant(request.request_id, id, target))
            &&& effect.state.channels[id].target == target
        }),
{
}

/// The first job of a channel is a future job, and the `SetNewPrevHash` right
/// behind it names that job and that channel. The job is kept, so that no share of
/// it is stale.
pub proof fn first_job_is_activated(
    state: ConnectionView,
    request: messages::OpenView,
    channel_target: Option<[u8; 32]>,
    template: Template,
)
    requires
        open_effect(state, request, channel_target, template).error is None,
    ensures
        ({
            let effect = open_effect(state, request, channel_target, template);
            let id = state.next_channel_id;
            let address = effect.state.channels[id].miner_address;
            let job = as_future(template.job(id, address, state.next_job_id));
            let prev = template.prev_hash(id, state.next_job_id);
            &&& effect.frames.len() == 3
            &&& effect.frames[1] == job_frame(job)
            &&& effect.frames[2] == prev_hash_frame(prev)
            &&& job.min_ntime is None
            &&& job.job_id == prev.job_id
            &&& job.channel_id == id
            &&& prev.channel_id == id
            &&& effect.state.jobs.contains_key(job_key(id, job.job_id))
            &&& effect.state.jobs[job_key(id, job.job_id)].last() == job_record(address, template)
        }),
{
}

// ── Job broadcast ─────────────────────────────────────────────────────────────

/// The id of the job that a channel gets when the template changes: the same for
/// the same height and channel.
pub open spec fn broadcast_job_id(height: u32, channel_id: u32) -> u32 {
    (height << 8) | (channel_id & 0xff)
}

/// Channels whose ids differ in the low byte get different job ids.
pub proof fn broadcast_job_ids_differ(height: u32, a: u32, b: u32)
    requires
        a & 0xff != b & 0xff,
    ensures
        broadcast_job_id(height, a) != broadcast_job_id(height, b),
{
    assert((height << 8) | (a & 0xff) != (height << 8) | (b & 0xff)) by (bit_vector)
        requires
            a & 0xff != b & 0xff,
    ;
}

/// What a channel gets when the template changes: its `SetNewPrevHash` and its job.
pub open spec fn broadcast_frames(channel: ChannelView, template: Template) -> Seq<Seq<u8>> {
    let job_id = broadcast_job_id(template.number(), channel.channel_id);
    seq![
        prev_hash_frame(template.prev_hash(channel.channel_id, job_id)),
        job_frame(template.job(channel.channel_id, channel.miner_address, job_id)),
    ]
}

/// The frames of a broadcast over the channels in the order of `ids`, and the
/// error that ends it. Each channel gets its `SetNewPrevHash` and its job; the
/// first channel for which no job can be built ends the broadcast.
pub open spec fn broadcast(
    channels: Map<u32, ChannelView>,
    ids: Seq<u32>,
    template: Template,
) -> (Seq<Seq<u8>>, Option<JobError>)
    decreases ids.len(),
{
    if ids.len() == 0 {
        (Seq::empty(), None)
    } else {
        let channel = channels[ids[0]];
        match template.error(channel.miner_address) {
            Some(error) => (Seq::empty(), Some(error)),
            None => {
                let rest = broadcast(channels, ids.drop_first(), template);
                (broadcast_frames(channel, template) + rest.0, rest.1)
            },
        }
    }
}

/// The jobs that are kept after a broadcast over the channels in the order of `ids`:
/// those that it sent, each behind the others of its key, and all that were kept.
pub open spec fn broadcast_jobs(
    kept: Map<u64, Seq<SentJobView>>,
    channels: Map<u32, ChannelView>,
    ids: Seq<u32>,
    template: Template,
) -> Map<u64, Seq<SentJobView>>
    decreases ids.len(),
{
    if ids.len() == 0 {
        kept
    } else {
        let channel = channels[ids[0]];
        match template.error(channel.miner_address) {
            Some(_) => kept,
            None => broadcast_jobs(
                with_broadcast_job(kept, channel, template),
                channels,
                ids.drop_first(),
                template,
            ),
        }
    }
}

/// The state after a broadcast.
pub open spec fn after_broadcast(
    state: ConnectionView,
    ids: Seq<u32>,
    template: Template,
) -> ConnectionView {
    ConnectionView {
        jobs: broadcast_jobs(state.jobs, state.channels, ids, template),
        ..state
    }
}

/// What a broadcast needs: a template that is ready for every open channel.
pub open spec fn broadcast_needs(
    channels: Map<u32, ChannelView>,
    template: Template,
) -> bool {
    forall|id: u32| #[trigger]
        channels.contains_key(id) ==> template.is_ready(channels[id].miner_address)
}

/// Frames of a broadcast, and whether it reached every channel.
pub struct Broadcast {
    pub frames: Vec<Vec<u8>>,
    pub outcome: Result<(), JobError>,
}

impl Broadcast {
    /// Whether the broadcast sends the frames and reports the error.
    pub open spec fn is(self, result: (Seq<Seq<u8>>, Option<JobError>)) -> bool {
        &&& frame_views(self.frames@) == result.0
        &&& match self.outcome {
            Ok(_) => result.1 is None,
            Err(e) => result.1 == Some(e),
        }
    }
}

/// A broadcast sends the frames and no others, in their order, and fails exactly where
/// there is an error, with that error.
pub proof fn broadcasts_do_what_is_said(
    sent: Broadcast,
    frames: Seq<Seq<u8>>,
    error: Option<JobError>,
    i: int,
)
    requires
        sent.is((frames, error)),
    ensures
        sent.frames@.len() == frames.len(),
        0 <= i < frames.len() ==> sent.frames@[i]@ == frames[i],
        sent.outcome is Ok <==> error is None,
        sent.outcome is Err ==> error == Some(sent.outcome->Err_0),
{
    assert(frame_views(sent.frames@).len() == frames.len());
    if 0 <= i < frames.len() {
        assert(frame_views(sent.frames@)[i] == frames[i]);
    }
}

/// Whether `ids` lists every open channel once.
pub open spec fn lists_channels(ids: Seq<u32>, channels: Map<u32, ChannelView>) -> bool {
    ids.no_duplicates() && ids.to_set() == channels.dom()
}

/// The jobs that are kept once a channel was sent its job of a broadcast.
pub open spec fn with_broadcast_job(
    kept: Map<u64, Seq<SentJobView>>,
    channel: ChannelView,
    template: Template,
) -> Map<u64, Seq<SentJobView>> {
    with_job(
        kept,
        job_key(channel.channel_id, broadcast_job_id(template.number(), channel.channel_id)),
        job_record(channel.miner_address, template),
    )
}

/// Builds the two frames of one channel in a broadcast, and keeps the job.
fn send_job(state: &mut ConnectionState, id: u32, template: &Template) -> (out: Result<
    (Vec<u8>, Vec<u8>),
    JobError,
>)
    requires
        old(state)@.channels.contains_key(id),
        broadcast_needs(old(state)@.channels, *template),
    ensures
        ({
            let channel = old(state)@.channels[id];
            match out {
                Ok(pair) => {
                    &&& template.error(channel.miner_address) is None
                    &&& seq![pair.0@, pair.1@] == broadcast_frames(channel, *template)
                    &&& final(state)@ == (ConnectionView {
                        jobs: with_broadcast_job(old(state)@.jobs, channel, *template),
                        ..old(state)@
                    })
                },
                Err(error) => {
                    &&& template.error(channel.miner_address) == Some(error)
                    &&& final(state)@ == old(state)@
                },
            }
        }),
{
    match state.channels.get(&id) {
        Some(channel) => {
            let ghost view = channel@;
            assert(state@.channels[id] == view);
            let channel_id: u32 = channel.channel_id;
            let job_id: u32 = (template.low_number() << 8) | (channel_id & 0xff);
            match template.build_messages(channel, job_id) {
                Ok((prev_hash, job)) => {
                    let record: SentJob = template.record(&prev_hash, &job);
                    assert(record@ =~= job_record(view.miner_address, *template));
                    state.remember(channel_id, job_id, record);
                    let first: Vec<u8> = encode_prev_hash(&prev_hash);
                    let second: Vec<u8> = encode_job(&job);
                    assert(seq![first@, second@] =~= broadcast_frames(view, *template));
                    Ok((first, second))
                },
                Err(error) => Err(error),
            }
        },
        None => {
            assert(false);
            Err(JobError::BadBits)
        },
    }
}

/// Sends new jobs to the channels in the order of `ids`, and keeps them.
pub fn send_jobs_in_order(
    state: &mut ConnectionState,
    ids: &Vec<u32>,
    template: &Template,
) -> (out: Broadcast)
    requires
        broadcast_needs(old(state)@.channels, *template),
        forall|i: int|
            0 <= i < ids@.len() ==> old(state)@.channels.contains_key(#[trigger] ids@[i]),
    ensures
        out.is(broadcast(old(state)@.channels, ids@, *template)),
        final(state)@ == after_broadcast(old(state)@, ids@, *template),
{
    let mut frames: Vec<Vec<u8>> = Vec::new();
    let ghost start = state@;
    let ghost whole = broadcast(start.channels, ids@, *template);
    let ghost kept = broadcast_jobs(start.jobs, start.channels, ids@, *template);
    assert(ids@.skip(0) =~= ids@);
    assert(frame_views(frames@) + whole.0 =~= whole.0);
    let mut i: usize = 0;
    while i < ids.len()
        invariant
            i <= ids@.len(),
            start == old(state)@,
            state@ == (ConnectionView { jobs: state@.jobs, ..start }),
            broadcast_needs(start.channels, *template),
            forall|j: int| 0 <= j < ids@.len() ==> start.channels.contains_key(#[trigger] ids@[j]),
            whole == broadcast(start.channels, ids@, *template),
            kept == broadcast_jobs(start.jobs, start.channels, ids@, *template),
            kept == broadcast_jobs(state@.jobs, start.channels, ids@.skip(i as int), *template),
            ({
                let rest = broadcast(start.channels, ids@.skip(i as int), *template);
                &&& frame_views(frames@) + rest.0 == whole.0
                &&& rest.1 == whole.1
            }),
        decreases ids@.len() - i,
    {
        let ghost before = frame_views(frames@);
        let ghost left = ids@.skip(i as int);
        proof {
            assert(left[0] == ids@[i as int]);
            assert(start.channels.contains_key(ids@[i as int]));
            assert(left.drop_first() =~= ids@.skip(i + 1));
        }
        match send_job(state, ids[i], template) {
            Ok((first, second)) => {
                let ghost pair = seq![first@, second@];
                frames.push(first);
                frames.push(second);
                proof {
                    let rest = broadcast(start.channels, left.drop_first(), *template);
                    assert(frame_views(frames@) =~= before + pair);
                    assert(before + pair + rest.0 =~= before + (pair + rest.0));
                }
            },
            Err(error) => {
                proof {
                    assert(before + Seq::<Seq<u8>>::empty() =~= before);
                    assert(state@.jobs == kept);
                }
                return Broadcast { frames, outcome: Err(error) };
            },
        }
        i = i + 1;
    }
    assert(ids@.skip(i as int) =~= Seq::empty());
    assert(frame_views(frames@) + Seq::<Seq<u8>>::empty() =~= frame_views(frames@));
    Broadcast { frames, outcome: Ok(()) }
}

/// Sends a new `SetNewPrevHash` and `NewExtendedMiningJob` to every open channel,
/// in whatever order the channels come, and keeps the jobs.
pub fn send_jobs_to_all_channels(state: &mut ConnectionState, template: &Template) -> (out:
    Broadcast)
    requires
        broadcast_needs(old(state)@.channels, *template),
    ensures
        exists|ids: Seq<u32>|
            {
                &&& lists_channels(ids, old(state)@.channels)
                &&& out.is(#[trigger] broadcast(old(state)@.channels, ids, *template))
                &&& final(state)@ == after_broadcast(old(state)@, ids, *template)
            },
{
    let ids: Vec<u32> = state.channel_ids();
    let ghost before = state@;
    assert forall|i: int| 0 <= i < ids@.len() implies before.channels.contains_key(
        #[trigger] ids@[i],
    ) by {
        assert(ids@.to_set().contains(ids@[i]));
    }
    let out: Broadcast = send_jobs_in_order(state, &ids, template);
    assert(lists_channels(ids@, before.channels) && out.is(
        broadcast(before.channels, ids@, *template),
    ));
    out
}

proof fn lemma_broadcast_keys(
    kept: Map<u64, Seq<SentJobView>>,
    channels: Map<u32, ChannelView>,
    ids: Seq<u32>,
    template: Template,
)
    requires
        forall|id: u32| #[trigger] channels.contains_key(id) ==> channels[id].channel_id == id,
        forall|i: int| 0 <= i < ids.len() ==> channels.contains_key(#[trigger] ids[i]),
    ensures
        ({
            let after = broadcast_jobs(kept, channels, ids, template);
            &&& forall|key: u64| #[trigger]
                kept.contains_key(key) ==> after.contains_key(key) && kept[key].is_prefix_of(
                    after[key],
                )
            &&& forall|key: u64| #[trigger]
                after.contains_key(key) ==> kept.contains_key(key) || after[key].len() > 0
                    && channels.contains_key(channel_of_key(key))
            &&& forall|key: u64|
                kept.contains_key(key) && !ids.contains(channel_of_key(key))
                    ==> #[trigger] after[key] == kept[key]
        }),
    decreases ids.len(),
{
    if ids.len() > 0 {
        let id = ids[0];
        let job_id = broadcast_job_id(template.number(), id);
        let rest = ids.drop_first();
        assert(channels.contains_key(ids[0]));
        job_keys_are_distinct(id, job_id, id, job_id);
        if template.error(channels[id].miner_address) is None {
            let more = with_job(
                kept,
                job_key(id, job_id),
                job_record(channels[id].miner_address, template),
            );
            assert forall|i: int| 0 <= i < rest.len() implies channels.contains_key(
                #[trigger] rest[i],
            ) by {
                assert(rest[i] == ids[i + 1]);
            }
            lemma_broadcast_keys(more, channels, rest, template);
            let after = broadcast_jobs(kept, channels, ids, template);
            assert(after == broadcast_jobs(more, channels, rest, template));
            assert forall|key: u64| #[trigger] kept.contains_key(key) implies after.contains_key(
                key,
            ) && kept[key].is_prefix_of(after[key]) by {
                assert(more.contains_key(key));
                assert(kept[key].is_prefix_of(more[key]));
            }
            assert forall|key: u64| #[trigger] after.contains_key(key) implies kept.contains_key(key)
                || after[key].len() > 0 && channels.contains_key(channel_of_key(key)) by {
                if more.contains_key(key) && !kept.contains_key(key) {
                    assert(key == job_key(id, job_id));
                    assert(more[key].is_prefix_of(after[key]));
                    assert(more[key].len() == 1);
                }
            }
            assert forall|key: u64|
                kept.contains_key(key) && !ids.contains(channel_of_key(key)) implies
                #[trigger] after[key] == kept[key] by {
                assert(ids[0] == id);
                assert(ids.contains(id));
                assert(key != job_key(id, job_id));
                if rest.contains(channel_of_key(key)) {
                    let j = choose|j: int| 0 <= j < rest.len() && rest[j] == channel_of_key(key);
                    assert(ids[j + 1] == channel_of_key(key));
                }
                assert(more.contains_key(key));
            }
        }
    }
}

/// Where every open channel's job can be built, every job of a broadcast is kept, so
/// that no share of it is stale.
pub proof fn broadcast_jobs_are_kept(
    state: ConnectionView,
    ids: Seq<u32>,
    template: Template,
    i: int,
)
    requires
        state.well_formed(),
        ids.no_duplicates(),
        forall|j: int| 0 <= j < ids.len() ==> state.channels.contains_key(#[trigger] ids[j]),
        forall|j: int|
            0 <= j < ids.len() ==> template.error(
                state.channels[#[trigger] ids[j]].miner_address,
            ) is None,
        0 <= i < ids.len(),
    ensures
        ({
            let after = after_broadcast(state, ids, template);
            let key = job_key(ids[i], broadcast_job_id(template.number(), ids[i]));
            &&& after.jobs.contains_key(key)
            &&& after.jobs[key].last() == job_record(state.channels[ids[i]].miner_address, template)
        }),
    decreases ids.len(),
{
    let id = ids[0];
    let job_id = broadcast_job_id(template.number(), id);
    let rest = ids.drop_first();
    let record = job_record(state.channels[id].miner_address, template);
    assert(state.channels.contains_key(ids[0]));
    job_keys_are_distinct(id, job_id, id, job_id);
    let more = ConnectionView { jobs: with_job(state.jobs, job_key(id, job_id), record), ..state };
    assert forall|j: int| 0 <= j < rest.len() implies state.channels.contains_key(
        #[trigger] rest[j],
    ) && template.error(state.channels[rest[j]].miner_address) is None by {
        assert(rest[j] == ids[j + 1]);
    }
    if i == 0 {
        lemma_broadcast_keys(more.jobs, state.channels, rest, template);
        assert(!rest.contains(id)) by {
            if rest.contains(id) {
                let j = choose|j: int| 0 <= j < rest.len() && rest[j] == id;
                assert(ids[j + 1] == ids[0]);
            }
        }
        assert(more.jobs.contains_key(job_key(id, job_id)));
    } else {
        assert(rest[i - 1] == ids[i]);
        assert(rest.no_duplicates());
        assert(more.well_formed());
        broadcast_jobs_are_kept(more, rest, template, i - 1);
    }
}

/// Where every open channel's job can be built, a broadcast sends each channel its
/// two frames, one channel after the other, and meets no error, whatever the order.
pub proof fn broadcast_reaches_everyone(
    channels: Map<u32, ChannelView>,
    ids: Seq<u32>,
    template: Template,
)
    requires
        forall|i: int|
            0 <= i < ids.len() ==> template.error(
                channels[#[trigger] ids[i]].miner_address,
            ) is None,
    ensures
        broadcast(channels, ids, template).1 is None,
        broadcast(channels, ids, template).0.len() == 2 * ids.len(),
        forall|i: int|
            0 <= i < ids.len() ==> broadcast(channels, ids, template).0.subrange(2 * i, 2 * i + 2)
                == broadcast_frames(channels[#[trigger] ids[i]], template),
    decreases ids.len(),
{
    if ids.len() > 0 {
        assert(template.error(channels[ids[0]].miner_address) is None);
        let rest = ids.drop_first();
        assert forall|i: int| 0 <= i < rest.len() implies template.error(
            channels[#[trigger] rest[i]].miner_address,
        ) is None by {
            assert(rest[i] == ids[i + 1]);
        }
        broadcast_reaches_everyone(channels, rest, template);
        let all = broadcast(channels, ids, template).0;
        let later = broadcast(channels, rest, template).0;
        assert forall|i: int| 0 <= i < ids.len() implies all.subrange(2 * i, 2 * i + 2)
            == broadcast_frames(channels[#[trigger] ids[i]], template) by {
            if i == 0 {
                assert(all.subrange(0, 2) =~= broadcast_frames(channels[ids[0]], template));
            } else {
                assert(rest[i - 1] == ids[i]);
                assert(all.subrange(2 * i, 2 * i + 2) =~= later.subrange(2 * (i - 1), 2 * i));
            }
        }
    }
}

// ── What the jobs are for ─────────────────────────────────────────────────────

/// The coinbase that a miner of a channel works on.
pub open spec fn channel_coinbase(
    channel_id: u32,
    address: Seq<char>,
    extranonce2: Seq<u8>,
    template: BlockTemplate,
) -> coinbase::CoinbaseView {
    coinbase::coinbase_view(
        template.height,
        extranonce_prefix(channel_id) + extranonce2,
        template.coinbasevalue as u64,
        jobs::address_script(address)->0,
        jobs::commitment_script(template),
    )
}

/// What a miner computes from a job of its channel is a block of the template that
/// pays the miner: the coinbase pieces around the channel's prefix and the miner's
/// extranonce are the serialized coinbase, which pays the whole coinbase value to
/// the miner's script and nothing to anyone else, and the path climbed from its
/// hash is the merkle root over it and all transactions of the template.
pub proof fn channel_job_is_a_block_that_pays_the_miner(
    channel_id: u32,
    address: Seq<char>,
    job_id: u32,
    template: BlockTemplate,
    extranonce2: Seq<u8>,
)
    requires
        job_error(address, template) is None,
        extranonce2.len() == SV2_EXTRANONCE2_SIZE,
    ensures
        ({
            let job = job_message(channel_id, address, job_id, template);
            let view = channel_coinbase(channel_id, address, extranonce2, template);
            let tx = coinbase::legacy_bytes(view);
            &&& job.coinbase_tx_prefix + extranonce_prefix(channel_id) + extranonce2
                + job.coinbase_tx_suffix == tx
            &&& view.outputs[0].value == template.coinbasevalue as u64
            &&& Some(view.outputs[0].script_pubkey) == jobs::address_script(address)
            &&& forall|i: int|
                0 < i < view.outputs.len() ==> (#[trigger] view.outputs[i]).value == 0
            &&& merkle::climb(merkle::sha256d(tx), job.merkle_path) == merkle::root(
                seq![merkle::sha256d(tx)] + jobs::tx_hashes(template.transactions@),
            )
        }),
{
    let job = job_message(channel_id, address, job_id, template);
    let view = channel_coinbase(channel_id, address, extranonce2, template);
    let extranonce = extranonce_prefix(channel_id) + extranonce2;
    let tx = coinbase::legacy_bytes(view);
    bytes::lemma_le_len(channel_id as nat, 4);
    coinbase::pieces_make_the_transaction(
        template.height,
        extranonce,
        template.coinbasevalue as u64,
        jobs::address_script(address)->0,
        jobs::commitment_script(template),
    );
    assert(job.coinbase_tx_prefix + extranonce_prefix(channel_id) + extranonce2
        + job.coinbase_tx_suffix =~= job.coinbase_tx_prefix + extranonce + job.coinbase_tx_suffix);
    merkle::branch_gives_the_root(
        merkle::sha256d(tx),
        jobs::tx_hashes(template.transactions@),
    );
}

/// No two channels work on the same coinbase, whatever their extranonces and
/// addresses are.
pub proof fn channels_do_not_share_work(
    a: u32,
    address_a: Seq<char>,
    extranonce_a: Seq<u8>,
    b: u32,
    address_b: Seq<char>,
    extranonce_b: Seq<u8>,
    template: BlockTemplate,
)
    requires
        a != b,
        extranonce_a.len() == SV2_EXTRANONCE2_SIZE,
        extranonce_b.len() == SV2_EXTRANONCE2_SIZE,
    ensures
        coinbase::legacy_bytes(channel_coinbase(a, address_a, extranonce_a, template))
            != coinbase::legacy_bytes(channel_coinbase(b, address_b, extranonce_b, template)),
{
    let tx_a = coinbase::legacy_bytes(channel_coinbase(a, address_a, extranonce_a, template));
    let tx_b = coinbase::legacy_bytes(channel_coinbase(b, address_b, extranonce_b, template));
    let head = coinbase::before_extranonce(template.height, 36);
    let at = head.len() as int;
    bytes::lemma_le_len(a as nat, 4);
    bytes::lemma_le_len(b as nat, 4);
    coinbase::pieces_make_the_transaction(
        template.height,
        extranonce_prefix(a) + extranonce_a,
        template.coinbasevalue as u64,
        jobs::address_script(address_a)->0,
        jobs::commitment_script(template),
    );
    coinbase::pieces_make_the_transaction(
        template.height,
        extranonce_prefix(b) + extranonce_b,
        template.coinbasevalue as u64,
        jobs::address_script(address_b)->0,
        jobs::commitment_script(template),
    );
    assert(tx_a.subrange(at, at + 32) =~= extranonce_prefix(a));
    assert(tx_b.subrange(at, at + 32) =~= extranonce_prefix(b));
    if tx_a == tx_b {
        extranonce_prefixes_are_distinct(a, b);
    }
}

// ── What the frames say ───────────────────────────────────────────────────────

/// The two messages of a job say what the node's template says: the version, the time,
/// the previous hash, its text's bytes from the last to the first, and the bits as a
/// number. The coinbase pieces leave room for 36 bytes of extranonce, and are those of the
/// template's height, of its whole value for the miner's script, and of its witness
/// commitment. So templates of different versions give different jobs.
pub proof fn jobs_say_what_the_template_says(
    channel_id: u32,
    address: Seq<char>,
    job_id: u32,
    template: BlockTemplate,
    other: BlockTemplate,
)
    requires
        bits_ok(template),
    ensures
        ({
            let job = (Template::Rpc { template }).job(channel_id, address, job_id);
            let prev = (Template::Rpc { template }).prev_hash(channel_id, job_id);
            let commitment = match template.default_witness_commitment {
                Some(text) => hexadecimal::decoded(text@),
                None => None,
            };
            &&& job.channel_id == channel_id && job.job_id == job_id
            &&& job.version == template.version
            &&& job.min_ntime == Some(template.curtime)
            &&& job.version_rolling_allowed
            &&& job.merkle_path == merkle::branch(jobs::tx_hashes(template.transactions@))
            &&& job.coinbase_tx_prefix == coinbase::before_extranonce(template.height, 36)
            &&& job.coinbase_tx_suffix == coinbase::after_extranonce(
                template.coinbasevalue as u64,
                jobs::address_script(address)->0,
                commitment,
            )
            &&& prev.channel_id == channel_id && prev.job_id == job_id
            &&& prev.prev_hash == hexadecimal::decoded(template.previousblockhash@)->0.reverse()
            &&& prev.min_ntime == template.curtime
            &&& prev.nbits == hexadecimal::parsed(template.bits@)->0
            &&& template.version != other.version ==> job != (Template::Rpc {
                template: other,
            }).job(channel_id, address, job_id)
        }),
{
}

/// The two messages of a job say what the provider's template says.
pub proof fn jobs_say_what_the_provider_says(
    channel_id: u32,
    address: Seq<char>,
    job_id: u32,
    template: RawTemplate,
)
    ensures
        ({
            let job = (Template::Provided { template }).job(channel_id, address, job_id);
            let prev = (Template::Provided { template }).prev_hash(channel_id, job_id);
            let payout = coinbase::OutputView {
                value: template.new_template.coinbase_tx_value_remaining,
                script_pubkey: jobs::address_script(address)->0,
            };
            &&& job.channel_id == channel_id && job.job_id == job_id
            &&& job.version == template.new_template.version
            &&& job.min_ntime == Some(template.set_new_prev_hash.header_timestamp)
            &&& job.version_rolling_allowed
            &&& job.merkle_path == template.new_template.merkle_path@.map_values(|h: [u8; 32]| h@)
            &&& job.coinbase_tx_prefix == jobs::tdp_before(
                template.new_template.coinbase_prefix@,
                template.new_template.coinbase_tx_version,
                false,
            )
            &&& job.coinbase_tx_suffix == jobs::tdp_after(
                template.new_template.coinbase_tx_input_sequence,
                payout,
                template.new_template.coinbase_tx_outputs_count,
                template.new_template.coinbase_tx_outputs@,
                template.new_template.coinbase_tx_locktime,
                false,
            )
            &&& prev.channel_id == channel_id && prev.job_id == job_id
            &&& prev.prev_hash == template.set_new_prev_hash.prev_hash@
            &&& prev.min_ntime == template.set_new_prev_hash.header_timestamp
            &&& prev.nbits == template.set_new_prev_hash.n_bits
        }),
{
}

/// What is kept of a job is what its two messages say, whatever their ids are, under the
/// template's id; and its blocks have a witness exactly where the node gives a commitment,
/// or the provider an output.
pub proof fn what_is_kept_is_what_was_sent(
    channel_id: u32,
    address: Seq<char>,
    job_id: u32,
    template: Template,
)
    ensures
        ({
            let record = job_record(address, template);
            let job = template.job(channel_id, address, job_id);
            let prev = template.prev_hash(channel_id, job_id);
            &&& record.prev_hash == prev.prev_hash
            &&& record.nbits == prev.nbits
            &&& record.merkle_path == job.merkle_path
            &&& record.coinbase_tx_prefix == job.coinbase_tx_prefix
            &&& record.coinbase_tx_suffix == job.coinbase_tx_suffix
            &&& match template {
                Template::Rpc { template } => record.template_id == template.template_id
                    && record.has_witness == (template.default_witness_commitment is Some),
                Template::Provided { template } => record.template_id
                    == template.new_template.template_id && record.has_witness == (
                template.new_template.coinbase_tx_outputs_count > 0),
            }
        }),
{
}

/// The id of a broadcast job is the low 24 bits of the template's number, which is its
/// height or the low bits of the provider's id, above the low byte of the channel's id.
pub proof fn broadcast_job_id_says(template: Template, channel_id: u32)
    ensures
        ({
            let id = broadcast_job_id(template.number(), channel_id);
            &&& id % 0x100 == channel_id % 0x100
            &&& id / 0x100 == match template {
                Template::Rpc { template } => template.height as int,
                Template::Provided { template } => template.new_template.template_id as int
                    % 0x1_0000_0000,
            } % 0x100_0000
        }),
{
    let number = template.number();
    let id = broadcast_job_id(number, channel_id);
    assert(((number << 8) | (channel_id & 0xff)) % 0x100 == channel_id % 0x100) by (bit_vector);
    assert(((number << 8) | (channel_id & 0xff)) / 0x100 == number % 0x100_0000) by (bit_vector);
}

/// What a channel gets in a broadcast: the `SetNewPrevHash` first, then the job, both for
/// the channel, its miner and one id.
pub proof fn broadcast_frames_are_the_channels(channel: ChannelView, template: Template)
    ensures
        ({
            let frames = broadcast_frames(channel, template);
            let id = broadcast_job_id(template.number(), channel.channel_id);
            &&& frames.len() == 2
            &&& frames[0] == prev_hash_frame(template.prev_hash(channel.channel_id, id))
            &&& frames[1] == job_frame(
                template.job(channel.channel_id, channel.miner_address, id),
            )
        }),
{
}

/// A broadcast over some channels and then over others is the one and then the other,
/// unless it stops in the first; it stops at the first channel whose job meets an error,
/// with this error, and that channel and those behind it get nothing.
pub proof fn broadcast_stops_at_the_first_error(
    channels: Map<u32, ChannelView>,
    a: Seq<u32>,
    id: u32,
    b: Seq<u32>,
    template: Template,
)
    requires
        forall|i: int|
            0 <= i < a.len() ==> template.error(channels[#[trigger] a[i]].miner_address) is None,
    ensures
        broadcast(channels, a + b, template).0 == broadcast(channels, a, template).0 + broadcast(
            channels,
            b,
            template,
        ).0,
        broadcast(channels, a + b, template).1 == broadcast(channels, b, template).1,
        template.error(channels[id].miner_address) matches Some(error) ==> broadcast(
            channels,
            seq![id] + b,
            template,
        ) == (Seq::<Seq<u8>>::empty(), Some(error)),
    decreases a.len(),
{
    assert((seq![id] + b)[0] == id);
    if a.len() == 0 {
        assert(a + b =~= b);
        assert(broadcast(channels, a, template).0 =~= Seq::empty());
        assert(Seq::<Seq<u8>>::empty() + broadcast(channels, b, template).0 =~= broadcast(
            channels,
            b,
            template,
        ).0);
    } else {
        let rest = a.drop_first();
        assert(template.error(channels[a[0]].miner_address) is None);
        assert forall|i: int| 0 <= i < rest.len() implies template.error(
            channels[#[trigger] rest[i]].miner_address,
        ) is None by {
            assert(rest[i] == a[i + 1]);
        }
        broadcast_stops_at_the_first_error(channels, rest, id, b, template);
        assert((a + b).drop_first() =~= rest + b);
        assert((a + b)[0] == a[0]);
        let first = broadcast_frames(channels[a[0]], template);
        let middle = broadcast(channels, rest, template).0;
        let last = broadcast(channels, b, template).0;
        assert(first + (middle + last) =~= first + middle + last);
    }
}

/// What a `SetNewPrevHash` says, read from its frame's bytes.
pub proof fn prev_hash_frame_reads_back(m: messages::PrevHashView)
    requires
        m.prev_hash.len() == 32,
    ensures
        ({
            let frame = prev_hash_frame(m);
            &&& frame.len() == 54
            &&& frame[1] == 0x80 && frame[2] == 0x20
            &&& bytes::le_value(frame.subrange(3, 6)) == 48
            &&& bytes::le_value(frame.subrange(6, 10)) == m.channel_id
            &&& bytes::le_value(frame.subrange(10, 14)) == m.job_id
            &&& frame.subrange(14, 46) == m.prev_hash
            &&& bytes::le_value(frame.subrange(46, 50)) == m.min_ntime
            &&& bytes::le_value(frame.subrange(50, 54)) == m.nbits
        }),
{
    let frame = prev_hash_frame(m);
    let payload = messages::prev_hash_payload(m);
    bytes::lemma_pow256();
    bytes::lemma_le_len(m.channel_id as nat, 4);
    bytes::lemma_le_len(m.job_id as nat, 4);
    bytes::lemma_le_len(m.min_ntime as nat, 4);
    bytes::lemma_le_len(m.nbits as nat, 4);
    bytes::lemma_le_round_trip(m.channel_id as nat, 4);
    bytes::lemma_le_round_trip(m.job_id as nat, 4);
    bytes::lemma_le_round_trip(m.min_ntime as nat, 4);
    bytes::lemma_le_round_trip(m.nbits as nat, 4);
    messages::frame_header_says(0x20, true, payload);
    assert(payload.len() == 48);
    assert(frame.subrange(6, 10) =~= bytes::le(m.channel_id as nat, 4));
    assert(frame.subrange(10, 14) =~= bytes::le(m.job_id as nat, 4));
    assert(frame.subrange(14, 46) =~= m.prev_hash);
    assert(frame.subrange(46, 50) =~= bytes::le(m.min_ntime as nat, 4));
    assert(frame.subrange(50, 54) =~= bytes::le(m.nbits as nat, 4));
}

/// What a `NewExtendedMiningJob` says, read from its frame's bytes: the channel and the
/// job; whether it waits, or from which time on it is worked on; the version, which ends
/// `at + 4`, and whether it may be rolled; how many hashes the path has, and each of them;
/// and the two coinbase pieces behind their sizes, and nothing more.
pub proof fn job_frame_reads_back(m: messages::JobView) -> (at: int)
    requires
        messages::job_fits(m),
        forall|i: int| 0 <= i < m.merkle_path.len() ==> (#[trigger] m.merkle_path[i]).len() == 32,
    ensures
        ({
            let frame = job_frame(m);
            let a = at + 6 + 32 * m.merkle_path.len();
            let b = a + 2 + m.coinbase_tx_prefix.len();
            &&& frame[1] == 0x80 && frame[2] == 0x1f
            &&& bytes::le_value(frame.subrange(3, 6)) == frame.len() - 6
            &&& bytes::le_value(frame.subrange(6, 10)) == m.channel_id
            &&& bytes::le_value(frame.subrange(10, 14)) == m.job_id
            &&& match m.min_ntime {
                Some(time) => at == 19 && frame[14] == 1 && bytes::le_value(frame.subrange(15, 19))
                    == time,
                None => at == 15 && frame[14] == 0,
            }
            &&& bytes::le_value(frame.subrange(at, at + 4)) == m.version
            &&& frame[at + 4] == if m.version_rolling_allowed {
                1
            } else {
                0int
            }
            &&& frame[at + 5] == m.merkle_path.len()
            &&& forall|i: int|
                0 <= i < m.merkle_path.len() ==> frame.subrange(
                    at + 6 + 32 * i,
                    at + 38 + 32 * i,
                ) == #[trigger] m.merkle_path[i]
            &&& bytes::le_value(frame.subrange(a, a + 2)) == m.coinbase_tx_prefix.len()
            &&& frame.subrange(a + 2, b) == m.coinbase_tx_prefix
            &&& bytes::le_value(frame.subrange(b, b + 2)) == m.coinbase_tx_suffix.len()
            &&& frame.skip(b + 2) == m.coinbase_tx_suffix
        }),
{
    let frame = job_frame(m);
    let payload = messages::job_payload(m);
    let at = lemma_job_payload_says(m);
    messages::frame_header_says(0x1f, true, payload);
    lemma_job_says_behind_six(frame, payload, m, at);
    at + 6
}

/// Whether the fields of a job stand in the data, from a place on; the version at `at`.
spec fn says_job(data: Seq<u8>, from: int, m: messages::JobView, at: int) -> bool {
    let a = at + 6 + 32 * m.merkle_path.len();
    let b = a + 2 + m.coinbase_tx_prefix.len();
    &&& bytes::le_value(data.subrange(from, from + 4)) == m.channel_id
    &&& bytes::le_value(data.subrange(from + 4, from + 8)) == m.job_id
    &&& match m.min_ntime {
        Some(time) => at == from + 13 && data[from + 8] == 1 && bytes::le_value(
            data.subrange(from + 9, from + 13),
        ) == time,
        None => at == from + 9 && data[from + 8] == 0,
    }
    &&& bytes::le_value(data.subrange(at, at + 4)) == m.version
    &&& data[at + 4] == if m.version_rolling_allowed {
        1
    } else {
        0int
    }
    &&& data[at + 5] == m.merkle_path.len()
    &&& forall|i: int|
        0 <= i < m.merkle_path.len() ==> data.subrange(at + 6 + 32 * i, at + 38 + 32 * i)
            == #[trigger] m.merkle_path[i]
    &&& bytes::le_value(data.subrange(a, a + 2)) == m.coinbase_tx_prefix.len()
    &&& data.subrange(a + 2, b) == m.coinbase_tx_prefix
    &&& bytes::le_value(data.subrange(b, b + 2)) == m.coinbase_tx_suffix.len()
    &&& data.skip(b + 2) == m.coinbase_tx_suffix
    &&& data.len() == b + 2 + m.coinbase_tx_suffix.len()
}

#[verifier::spinoff_prover]
#[verifier::rlimit(60)]
proof fn lemma_job_says_behind_six(
    frame: Seq<u8>,
    payload: Seq<u8>,
    m: messages::JobView,
    at: int,
)
    requires
        says_job(payload, 0, m, at),
        frame.len() == 6 + payload.len(),
        frame.skip(6) == payload,
    ensures
        says_job(frame, 6, m, at + 6),
{
    lemma_behind_six(frame, payload);
    assert(frame[14] == frame.skip(6)[8]);
    assert(frame[at + 10] == frame.skip(6)[at + 4]);
    assert(frame[at + 11] == frame.skip(6)[at + 5]);
    assert forall|i: int| 0 <= i < m.merkle_path.len() implies frame.subrange(
        at + 6 + 6 + 32 * i,
        at + 6 + 38 + 32 * i,
    ) == #[trigger] m.merkle_path[i] by {
        assert(frame.subrange(at + 6 + 6 + 32 * i, at + 6 + 38 + 32 * i) == payload.subrange(
            at + 6 + 32 * i,
            at + 38 + 32 * i,
        ));
    }
}

proof fn lemma_job_payload_says(m: messages::JobView) -> (at: int)
    requires
        messages::job_fits(m),
        forall|i: int| 0 <= i < m.merkle_path.len() ==> (#[trigger] m.merkle_path[i]).len() == 32,
    ensures
        says_job(messages::job_payload(m), 0, m, at),
        messages::job_payload(m).len() < 0x100_0000,
{
    let payload = messages::job_payload(m);
    let rolling: u8 = if m.version_rolling_allowed {
        1
    } else {
        0
    };
    let channel = bytes::le(m.channel_id as nat, 4);
    let job = bytes::le(m.job_id as nat, 4);
    let option = messages::option_payload(m.min_ntime);
    let version = bytes::le(m.version as nat, 4);
    let path = messages::joined(m.merkle_path);
    let first = bytes::le(m.coinbase_tx_prefix.len(), 2);
    let second = bytes::le(m.coinbase_tx_suffix.len(), 2);
    bytes::lemma_pow256();
    bytes::lemma_le_len(m.channel_id as nat, 4);
    bytes::lemma_le_len(m.job_id as nat, 4);
    bytes::lemma_le_len(m.version as nat, 4);
    bytes::lemma_le_len(m.coinbase_tx_prefix.len(), 2);
    bytes::lemma_le_len(m.coinbase_tx_suffix.len(), 2);
    bytes::lemma_le_round_trip(m.channel_id as nat, 4);
    bytes::lemma_le_round_trip(m.job_id as nat, 4);
    bytes::lemma_le_round_trip(m.version as nat, 4);
    bytes::lemma_le_round_trip(m.coinbase_tx_prefix.len(), 2);
    bytes::lemma_le_round_trip(m.coinbase_tx_suffix.len(), 2);
    lemma_joined_len(m.merkle_path);
    let marks = seq![rolling, m.merkle_path.len() as u8];
    lemma_job_parts(
        channel,
        job,
        option,
        version,
        marks,
        path,
        first,
        m.coinbase_tx_prefix,
        second,
        m.coinbase_tx_suffix,
    );
    assert(payload =~= channel + job + option + version + marks + path + first
        + m.coinbase_tx_prefix + second + m.coinbase_tx_suffix);
    let at = 8 + option.len() as int;
    lemma_job_marks_say(payload, m, option, marks, path, at);
    at
}

proof fn lemma_job_marks_say(
    payload: Seq<u8>,
    m: messages::JobView,
    option: Seq<u8>,
    marks: Seq<u8>,
    path: Seq<u8>,
    at: int,
)
    requires
        option == messages::option_payload(m.min_ntime),
        at == 8 + option.len(),
        marks.len() == 2,
        path == messages::joined(m.merkle_path),
        forall|i: int| 0 <= i < m.merkle_path.len() ==> (#[trigger] m.merkle_path[i]).len() == 32,
        at + 6 + path.len() <= payload.len(),
        payload.subrange(8, at) == option,
        payload.subrange(at + 4, at + 6) == marks,
        payload.subrange(at + 6, at + 6 + path.len()) == path,
    ensures
        match m.min_ntime {
            Some(time) => at == 13 && payload[8] == 1 && bytes::le_value(payload.subrange(9, 13))
                == time,
            None => at == 9 && payload[8] == 0,
        },
        payload[at + 4] == marks[0],
        payload[at + 5] == marks[1],
        forall|i: int|
            0 <= i < m.merkle_path.len() ==> payload.subrange(at + 6 + 32 * i, at + 38 + 32 * i)
                == #[trigger] m.merkle_path[i],
{
    bytes::lemma_pow256();
    if m.min_ntime is Some {
        bytes::lemma_le_len(m.min_ntime->0 as nat, 4);
        bytes::lemma_le_round_trip(m.min_ntime->0 as nat, 4);
        assert(payload.subrange(9, 13) =~= payload.subrange(8, at).subrange(1, 5));
        assert(option.subrange(1, 5) =~= bytes::le(m.min_ntime->0 as nat, 4));
    }
    assert(payload[8] == payload.subrange(8, at)[0]);
    assert(payload[at + 4] == payload.subrange(at + 4, at + 6)[0]);
    assert(payload[at + 5] == payload.subrange(at + 4, at + 6)[1]);
    assert forall|i: int| 0 <= i < m.merkle_path.len() implies payload.subrange(
        at + 6 + 32 * i,
        at + 38 + 32 * i,
    ) == #[trigger] m.merkle_path[i] by {
        lemma_joined_item(m.merkle_path, i);
        assert(payload.subrange(at + 6 + 32 * i, at + 38 + 32 * i) =~= payload.subrange(
            at + 6,
            at + 6 + path.len(),
        ).subrange(32 * i, 32 * i + 32));
    }
}

proof fn lemma_behind_six(frame: Seq<u8>, payload: Seq<u8>)
    requires
        frame.len() == 6 + payload.len(),
        frame.skip(6) == payload,
    ensures
        forall|i: int, j: int|
            6 <= i <= j <= frame.len() ==> #[trigger] frame.subrange(i, j) == payload.subrange(
                i - 6,
                j - 6,
            ),
        forall|i: int| 6 <= i <= frame.len() ==> #[trigger] frame.skip(i) == payload.skip(i - 6),
{
    assert forall|i: int, j: int| 6 <= i <= j <= frame.len() implies #[trigger] frame.subrange(i, j)
        == payload.subrange(i - 6, j - 6) by {
        assert(frame.subrange(i, j) =~= frame.skip(6).subrange(i - 6, j - 6));
    }
    assert forall|i: int| 6 <= i <= frame.len() implies #[trigger] frame.skip(i) == payload.skip(
        i - 6,
    ) by {
        assert(frame.skip(i) =~= frame.skip(6).skip(i - 6));
    }
}

proof fn lemma_job_parts(
    a: Seq<u8>,
    b: Seq<u8>,
    c: Seq<u8>,
    d: Seq<u8>,
    e: Seq<u8>,
    f: Seq<u8>,
    g: Seq<u8>,
    h: Seq<u8>,
    k: Seq<u8>,
    l: Seq<u8>,
)
    requires
        a.len() == 4,
        b.len() == 4,
        d.len() == 4,
        e.len() == 2,
        g.len() == 2,
        k.len() == 2,
    ensures
        ({
            let all = a + b + c + d + e + f + g + h + k + l;
            let at = 8 + c.len() as int;
            let x = at + 6 + f.len();
            let y = x + 2 + h.len();
            &&& all.subrange(0, 4) == a
            &&& all.subrange(4, 8) == b
            &&& all.subrange(8, at) == c
            &&& all.subrange(at, at + 4) == d
            &&& all.subrange(at + 4, at + 6) == e
            &&& all.subrange(at + 6, x) == f
            &&& all.subrange(x, x + 2) == g
            &&& all.subrange(x + 2, y) == h
            &&& all.subrange(y, y + 2) == k
            &&& all.skip(y + 2) == l
            &&& all.len() == y + 2 + l.len()
        }),
{
    let all = a + b + c + d + e + f + g + h + k + l;
    let at = 8 + c.len() as int;
    let x = at + 6 + f.len();
    let y = x + 2 + h.len();
    assert(all.subrange(0, 4) =~= a);
    assert(all.subrange(4, 8) =~= b);
    assert(all.subrange(8, at) =~= c);
    assert(all.subrange(at, at + 4) =~= d);
    assert(all.subrange(at + 4, at + 6) =~= e);
    assert(all.subrange(at + 6, x) =~= f);
    assert(all.subrange(x, x + 2) =~= g);
    assert(all.subrange(x + 2, y) =~= h);
    assert(all.subrange(y, y + 2) =~= k);
    assert(all.skip(y + 2) =~= l);
}

proof fn lemma_joined_item(hashes: Seq<Seq<u8>>, i: int)
    requires
        0 <= i < hashes.len(),
        forall|j: int| 0 <= j < hashes.len() ==> (#[trigger] hashes[j]).len() == 32,
    ensures
        messages::joined(hashes).len() == 32 * hashes.len(),
        messages::joined(hashes).subrange(32 * i, 32 * i + 32) == hashes[i],
    decreases hashes.len(),
{
    let rest = hashes.drop_first();
    let all = messages::joined(hashes);
    lemma_joined_len(hashes);
    assert forall|j: int| 0 <= j < rest.len() implies (#[trigger] rest[j]).len() == 32 by {
        assert(rest[j] == hashes[j + 1]);
    }
    lemma_joined_len(rest);
    if i == 0 {
        assert(all.subrange(0, 32) =~= hashes[0]);
    } else {
        lemma_joined_item(rest, i - 1);
        assert(all.subrange(32 * i, 32 * i + 32) =~= messages::joined(rest).subrange(
            32 * (i - 1),
            32 * i,
        ));
    }
}

/// The target that a channel without a rate is granted is the template's number: the
/// node's text spells it from its most significant byte, the grant and the shares have it
/// from the least significant one.
pub proof fn the_granted_target_says(channel_target: Option<[u8; 32]>, template: Template)
    ensures
        channel_target matches Some(target) ==> granted_target(channel_target, template) == target@,
        channel_target is None ==> match template {
            Template::Rpc { template } => granted_target(
                None,
                Template::Rpc { template },
            ).reverse() == hexadecimal::decoded(template.target@)->0,
            Template::Provided { template } => granted_target(None, Template::Provided { template })
                == template.set_new_prev_hash.target@,
        },
{
    if let Template::Rpc { template } = template {
        let spelled = hexadecimal::decoded(template.target@)->0;
        assert(spelled.reverse().reverse() =~= spelled);
    }
}

/// What a request for a channel brings about, read from the grant's bytes: the request,
/// the channel's id, which is the next one, the target, 4 bytes to roll behind a prefix of
/// 32, which is the channel's id and zeros, and no group. The channel has this id and this
/// target, and the address that the request names; both ids are spent.
pub proof fn grant_reads_back(
    state: ConnectionView,
    request: messages::OpenView,
    channel_target: Option<[u8; 32]>,
    template: Template,
)
    requires
        template.bad_target() is None,
        state.next_channel_id < u32::MAX,
        state.next_job_id < u32::MAX,
    ensures
        ({
            let effect = open_effect(state, request, channel_target, template);
            let frame = effect.frames[0];
            let id = state.next_channel_id;
            let channel = effect.state.channels[id];
            &&& frame.len() == 85
            &&& frame[1] == 0 && frame[2] == 0x14
            &&& bytes::le_value(frame.subrange(3, 6)) == 79
            &&& bytes::le_value(frame.subrange(6, 10)) == request.request_id
            &&& bytes::le_value(frame.subrange(10, 14)) == id
            &&& frame.subrange(14, 46) == channel.target
            &&& bytes::le_value(frame.subrange(46, 48)) == 4
            &&& frame[48] == 32
            &&& bytes::le_value(frame.subrange(49, 53)) == id
            &&& forall|i: int| 53 <= i < 81 ==> frame[i] == 0
            &&& bytes::le_value(frame.subrange(81, 85)) == 0
            &&& channel.channel_id == id
            &&& bytes::le_value(channel.extranonce1) == id && channel.extranonce1.len() == 4
            &&& channel.target == granted_target(channel_target, template)
            &&& channel.miner_address == payout_address(
                messages::identity_text(request.user_identity),
                state.pool_address,
            )
            &&& effect.state.next_channel_id == id + 1
            &&& effect.state.next_job_id == state.next_job_id + 1
        }),
{
    let effect = open_effect(state, request, channel_target, template);
    let frame = effect.frames[0];
    let id = state.next_channel_id;
    let target = granted_target(channel_target, template);
    let m = grant(request.request_id, id, target);
    let payload = messages::open_success_payload(m);
    let prefix = extranonce_prefix(id);
    bytes::lemma_pow256();
    bytes::lemma_le_len(request.request_id as nat, 4);
    bytes::lemma_le_len(id as nat, 4);
    bytes::lemma_le_len(4, 2);
    bytes::lemma_le_len(0, 4);
    bytes::lemma_le_round_trip(request.request_id as nat, 4);
    bytes::lemma_le_round_trip(id as nat, 4);
    bytes::lemma_le_round_trip(4, 2);
    bytes::lemma_le_round_trip(0, 4);
    assert(target.len() == 32);
    assert(payload.len() == 79);
    messages::frame_header_says(0x14, false, payload);
    lemma_behind_six(frame, payload);
    assert(payload.subrange(0, 4) =~= bytes::le(request.request_id as nat, 4));
    assert(payload.subrange(4, 8) =~= bytes::le(id as nat, 4));
    assert(payload.subrange(8, 40) =~= target);
    assert(payload.subrange(40, 42) =~= bytes::le(4, 2));
    assert(frame[48] == frame.subrange(48, 49)[0]);
    assert(payload.subrange(42, 43)[0] == 32);
    assert(payload.subrange(43, 75) =~= prefix);
    assert(payload.subrange(43, 47) =~= bytes::le(id as nat, 4));
    assert forall|i: int| 53 <= i < 81 implies frame[i] == 0 by {
        assert(frame.subrange(49, 81)[i - 49] == prefix[i - 49]);
    }
    assert(payload.subrange(75, 79) =~= bytes::le(0, 4));
}

/// What a request for a channel does where it fails: one that cannot be read does nothing; a
/// template without a target, which is one of 64 hexadecimal digits, spends a channel's id
/// and no more; where no job can be built, the channel is granted, and that is all that is
/// sent. Either ends the connection with the error.
pub proof fn open_errors_are(
    state: ConnectionView,
    payload: Seq<u8>,
    channel_target: Option<[u8; 32]>,
    template: Template,
)
    ensures
        ({
            let effect = open_payload_effect(state, payload, channel_target, template);
            let read = messages::open_at_front(payload);
            let request = read->0;
            let address = payout_address(
                messages::identity_text(request.user_identity),
                state.pool_address,
            );
            &&& effect.share is None && effect.solution is None
            &&& read is None ==> effect.state == state && effect.frames.len() == 0 && effect.error
                == Some(MessageError::Open { error: OpenError::Malformed })
            &&& read is Some && template.bad_target() is Some ==> {
                &&& effect.state == (ConnectionView {
                    next_channel_id: (state.next_channel_id + 1) as u32,
                    ..state
                })
                &&& effect.frames.len() == 0
                &&& effect.error == Some(
                    MessageError::Open { error: template.bad_target()->0 },
                )
            }
            &&& read is Some && template.bad_target() is None ==> {
                let error = template.error(address);
                &&& effect == open_effect(state, request, channel_target, template)
                &&& error is Some ==> effect.frames.len() == 1 && effect.state.jobs == state.jobs
                    && effect.error == Some(
                    MessageError::Open { error: OpenError::Job { error: error->0 } },
                )
                &&& error is None ==> effect.frames.len() == 3 && effect.error is None
            }
        }),
{
}

/// Which error a template's target meets: the node's is to be 64 hexadecimal digits, that
/// is 32 bytes; a provider's never meets one.
pub proof fn target_errors_are(template: Template)
    ensures
        match template {
            Template::Rpc { template: t } => {
                let data = hexadecimal::decoded(t.target@);
                &&& template.bad_target() == Some(OpenError::TargetNotHex) <==> data is None
                &&& template.bad_target() == Some(OpenError::TargetLength) <==> data is Some
                    && data->0.len() != 32
                &&& template.bad_target() is None <==> data is Some && data->0.len() == 32
            },
            Template::Provided { .. } => template.bad_target() is None,
        },
{
}

/// Which error a job of a provider's template meets: an address that is none, or coinbase
/// outputs that do not fit the message.
pub proof fn provided_errors_are(address: Seq<char>, template: RawTemplate)
    ensures
        ({
            let error = (Template::Provided { template }).error(address);
            let script = jobs::address_script(address);
            let fits = provided_suffix(address, template).len() <= 65535;
            &&& error == Some(JobError::InvalidMinerAddress) <==> script is None
            &&& error == Some(JobError::CoinbaseSuffixTooLarge) <==> script is Some && !fits
            &&& error is None <==> script is Some && fits
        }),
{
}

/// What can be served: everything but a readable request for a channel where no id is left,
/// or for which, as for a broadcast, the template's commitment or transaction ids cannot be
/// read although its hash, its bits and the address can; or a provider's prefix or path that
/// is too long for its message.
#[verifier::spinoff_prover]
#[verifier::rlimit(60)]
pub proof fn what_can_be_served(
    state: ConnectionView,
    payload: Seq<u8>,
    template: Template,
    address: Seq<char>,
)
    ensures
        messages::open_at_front(payload) is None ==> open_needs(state, payload, template),
        messages::open_at_front(payload) matches Some(request) ==> (open_needs(
            state,
            payload,
            template,
        ) <==> state.next_channel_id < u32::MAX && (template.bad_target() is None
            ==> state.next_job_id < u32::MAX && template.is_ready(
            payout_address(messages::identity_text(request.user_identity), state.pool_address),
        ))),
        broadcast_needs(state.channels, template) <==> forall|id: u32| #[trigger]
            state.channels.contains_key(id) ==> template.is_ready(
                state.channels[id].miner_address,
            ),
        match template {
            Template::Rpc { template: t } => {
                let hash = hexadecimal::decoded(t.previousblockhash@);
                let bits = hexadecimal::parsed(t.bits@);
                let reaches = hash is Some && hash->0.len() == 32 && bits is Some && bits->0
                    <= u32::MAX && jobs::address_script(address) is Some;
                template.is_ready(address) <==> !reaches || jobs::coinbase_inputs_ok(t)
            },
            Template::Provided { template: t } => template.is_ready(address)
                <==> t.new_template.coinbase_prefix@.len() <= 255
                && t.new_template.merkle_path@.len() <= 255,
        },
{
}

/// An identity pays what stands before its first dot, or all of it, where that is an
/// address; else it pays the pool.
pub proof fn identities_name_the_address(
    identity: Seq<char>,
    pool_address: Seq<char>,
    at: int,
)
    requires
        0 <= at <= identity.len(),
        forall|i: int| 0 <= i < at ==> identity[i] != '.',
        at < identity.len() ==> identity[at] == '.',
    ensures
        payout_address(identity, pool_address) == if jobs::address_script(
            identity.take(at),
        ) is Some {
            identity.take(at)
        } else {
            pool_address
        },
{
    lemma_before_dot(identity, at);
}

/// What the first frame is answered, read from the answer's bytes: version 2 and the need
/// for extended channels where the connection stands; else a code, without flags, by the
/// error; and no answer to a handshake frame or to a message that cannot be read.
pub proof fn setup_answers_read_back(frame: IncomingFrame)
    ensures
        match setup_error(frame) {
            None => setup_reply(frame) matches Some(reply) && {
                &&& reply.len() == 12
                &&& reply[1] == 0 && reply[2] == 1
                &&& bytes::le_value(reply.subrange(3, 6)) == 6
                &&& bytes::le_value(reply.subrange(6, 8)) == 2
                &&& bytes::le_value(reply.subrange(8, 12)) == 2
            },
            Some(SetupError::UnexpectedHandshake) => setup_reply(frame) is None,
            Some(SetupError::Malformed) => setup_reply(frame) is None,
            Some(error) => setup_reply(frame) matches Some(reply) && {
                let code = vstd::utf8::encode_utf8(
                    match error {
                        SetupError::UnsupportedProtocol { .. } => "unsupported-protocol"@,
                        SetupError::VersionMismatch { .. } => "protocol-version-mismatch"@,
                        _ => "unsupported-message"@,
                    },
                );
                &&& reply[1] == 0 && reply[2] == 2
                &&& bytes::le_value(reply.subrange(3, 6)) == reply.len() - 6
                &&& bytes::le_value(reply.subrange(6, 10)) == 0
                &&& reply[10] == code.len()
                &&& reply.skip(11) == code
            },
        },
{
    lemma_codes_are_short();
    bytes::lemma_pow256();
    bytes::lemma_le_len(2, 2);
    bytes::lemma_le_len(2, 4);
    bytes::lemma_le_len(0, 4);
    bytes::lemma_le_round_trip(2, 2);
    bytes::lemma_le_round_trip(2, 4);
    bytes::lemma_le_round_trip(0, 4);
    match setup_error(frame) {
        None => {
            let payload = messages::setup_success_payload(2, 2);
            let reply = success_frame();
            messages::frame_header_says(1, false, payload);
            lemma_behind_six(reply, payload);
            assert(payload.subrange(0, 2) =~= bytes::le(2, 2));
            assert(payload.subrange(2, 6) =~= bytes::le(2, 4));
        },
        Some(error) => {
            if error_code(error) is Some {
                let code = vstd::utf8::encode_utf8(error_code(error)->0);
                let payload = messages::setup_error_payload(0, code);
                let reply = error_frame(error_code(error)->0);
                messages::frame_header_says(2, false, payload);
                lemma_behind_six(reply, payload);
                assert(payload.subrange(0, 4) =~= bytes::le(0, 4));
                assert(reply[10] == reply.subrange(10, 11)[0]);
                assert(payload.subrange(4, 5)[0] == code.len() as u8);
                assert(payload.skip(5) =~= code);
            }
        },
    }
}

/// Which error a first frame meets: a handshake frame, a message of another type, one that
/// cannot be read, one of another protocol, one whose versions leave out version 2; else
/// none.
pub proof fn setup_errors_are(frame: IncomingFrame)
    ensures
        match frame {
            IncomingFrame::HandShake => setup_error(frame) == Some(SetupError::UnexpectedHandshake),
            IncomingFrame::Sv2 { msg_type, payload, .. } => {
                let request = messages::setup_at_front(payload@);
                let m = request->0;
                &&& msg_type != 0 <==> setup_error(frame) == Some(
                    SetupError::UnexpectedMessage { msg_type },
                )
                &&& msg_type == 0 && request is None <==> setup_error(frame) == Some(
                    SetupError::Malformed,
                )
                &&& msg_type == 0 && request is Some && m.protocol != Protocol::Mining
                    ==> setup_error(frame) == Some(
                    SetupError::UnsupportedProtocol { protocol: m.protocol },
                )
                &&& msg_type == 0 && request is Some && m.protocol == Protocol::Mining && (
                m.min_version > 2 || m.max_version < 2) ==> setup_error(frame) == Some(
                    SetupError::VersionMismatch {
                        min_version: m.min_version,
                        max_version: m.max_version,
                    },
                )
                &&& setup_error(frame) is None <==> msg_type == 0 && request is Some && m.protocol
                    == Protocol::Mining && m.min_version <= 2 <= m.max_version
            },
        },
{
}

/// Which error a job meets: a previous hash that is no hexadecimal or not 32 bytes, bits
/// that are no 32-bit number, an address that is none, coinbase outputs that do not fit
/// the message; the first of these in order, and none else.
pub proof fn job_errors_are(address: Seq<char>, template: BlockTemplate)
    ensures
        ({
            let error = job_error(address, template);
            let hash = hexadecimal::decoded(template.previousblockhash@);
            let bits = hexadecimal::parsed(template.bits@);
            let good_hash = hash is Some && hash->0.len() == 32;
            let good_bits = bits is Some && bits->0 <= u32::MAX;
            let script = jobs::address_script(address);
            let fits = coinbase_suffix(address, template).len() <= 65535;
            &&& error == Some(JobError::PrevHashNotHex) <==> hash is None
            &&& error == Some(JobError::PrevHashLength) <==> hash is Some && !good_hash
            &&& error == Some(JobError::BadBits) <==> good_hash && !good_bits
            &&& error == Some(JobError::InvalidMinerAddress) <==> good_hash && good_bits && script
                is None
            &&& error == Some(JobError::CoinbaseSuffixTooLarge) <==> good_hash && good_bits
                && script is Some && !fits
            &&& error is None <==> good_hash && good_bits && script is Some && fits
        }),
{
}

// ── Connection ────────────────────────────────────────────────────────────────

/// What happens on a connection.
pub enum ConnectionEvent {
    /// A frame came, with the target of a channel that it may open: the one that the
    /// hash rate of its request gives.
    Frame { frame: IncomingFrame, channel_target: Option<[u8; 32]> },
    /// The peer is gone, or what it sent cannot be decrypted.
    ReadFailed,
    TemplateChanged,
}

/// What becomes of the connection.
#[derive(Debug, Clone, Copy, PartialEq, Eq, Structural)]
pub enum NextStep {
    Continue,
    /// A broadcast stopped short; the connection stands.
    ContinueAfter { error: JobError },
    Close,
    CloseWith { error: MessageError },
    /// The connection was never set up.
    Refuse { error: SetupError },
}

/// Frames to send, what comes then, the share to record and the block to submit.
pub struct Step {
    pub frames: Vec<Vec<u8>>,
    pub next: NextStep,
    pub share: Option<AcceptedShare>,
    pub solution: Option<SubmitSolutionData>,
}

#[verifier::ext_equal]
pub struct StepView {
    pub frames: Seq<Seq<u8>>,
    pub next: NextStep,
    pub share: Option<AcceptedView>,
    pub solution: Option<node_ipc::SolutionView>,
}

impl View for Step {
    type V = StepView;

    open spec fn view(&self) -> StepView {
        StepView {
            frames: frame_views(self.frames@),
            next: self.next,
            share: shares::accepted_view(self.share),
            solution: shares::solution_view(self.solution),
        }
    }
}

/// A step without a share.
pub open spec fn plain_step(frames: Seq<Seq<u8>>, next: NextStep) -> StepView {
    StepView { frames, next, share: None, solution: None }
}

/// What an event needs of the state and the template.
pub open spec fn event_needs(
    state: ConnectionView,
    event: ConnectionEvent,
    template: Template,
) -> bool {
    match event {
        ConnectionEvent::Frame { frame, .. } => frame_needs(state, frame, template),
        ConnectionEvent::ReadFailed => true,
        ConnectionEvent::TemplateChanged => broadcast_needs(state.channels, template),
    }
}

/// What an event may do on a connection that is set up: a frame's effect, and the
/// connection ends where it meets an error; a quiet end where reading fails; a
/// broadcast over the open channels in some order, whose error does not end the
/// connection.
pub open spec fn event_step(
    before: ConnectionView,
    event: ConnectionEvent,
    template: Template,
    after: ConnectionView,
    step: StepView,
) -> bool {
    match event {
        ConnectionEvent::Frame { frame, channel_target } => {
            let effect = frame_effect(before, frame, channel_target, template);
            &&& after == effect.state
            &&& step == (StepView {
                frames: effect.frames,
                next: match effect.error {
                    None => NextStep::Continue,
                    Some(error) => NextStep::CloseWith { error },
                },
                share: effect.share,
                solution: effect.solution,
            })
        },
        ConnectionEvent::ReadFailed => {
            &&& after == before
            &&& step == plain_step(Seq::empty(), NextStep::Close)
        },
        ConnectionEvent::TemplateChanged => {
            exists|ids: Seq<u32>|
                {
                    let sent = #[trigger] broadcast(before.channels, ids, template);
                    &&& lists_channels(ids, before.channels)
                    &&& after == after_broadcast(before, ids, template)
                    &&& step == plain_step(
                        sent.0,
                        match sent.1 {
                            None => NextStep::Continue,
                            Some(error) => NextStep::ContinueAfter { error },
                        },
                    )
                }
        },
    }
}

/// Serves one event on a connection that is set up.
pub fn handle_event(
    state: &mut ConnectionState,
    event: &ConnectionEvent,
    template: &Template,
) -> (step: Step)
    requires
        event_needs(old(state)@, *event, *template),
    ensures
        event_step(old(state)@, *event, *template, final(state)@, step@),
{
    let ghost before = state@;
    match event {
        ConnectionEvent::Frame { frame, channel_target } => {
            let reply: Reply = dispatch_message(frame, state, channel_target, template);
            let next: NextStep = match reply.outcome {
                Ok(_) => NextStep::Continue,
                Err(error) => NextStep::CloseWith { error },
            };
            Step { frames: reply.frames, next, share: reply.share, solution: reply.solution }
        },
        ConnectionEvent::ReadFailed => {
            let frames: Vec<Vec<u8>> = Vec::new();
            assert(frame_views(frames@) =~= Seq::empty());
            Step { frames, next: NextStep::Close, share: None, solution: None }
        },
        ConnectionEvent::TemplateChanged => {
            let sent: Broadcast = send_jobs_to_all_channels(state, template);
            let next: NextStep = match sent.outcome {
                Ok(_) => NextStep::Continue,
                Err(error) => NextStep::ContinueAfter { error },
            };
            let step: Step = Step { frames: sent.frames, next, share: None, solution: None };
            proof {
                let ids = choose|ids: Seq<u32>|
                    {
                        &&& lists_channels(ids, before.channels)
                        &&& sent.is(#[trigger] broadcast(before.channels, ids, *template))
                        &&& state@ == after_broadcast(before, ids, *template)
                    };
                let result = broadcast(before.channels, ids, *template);
                assert(step@ == plain_step(
                    result.0,
                    match result.1 {
                        None => NextStep::Continue,
                        Some(error) => NextStep::ContinueAfter { error },
                    },
                ));
            }
            step
        },
    }
}

pub(crate) fn check_header_fields(template: &BlockTemplate) -> (ok: bool)
    ensures
        ok == header_fields_ok(*template),
{
    match hexadecimal::decode(template.previousblockhash.as_str()) {
        Some(data) => data.len() == 32 && hexadecimal::parse_u32(template.bits.as_str()).is_some(),
        None => false,
    }
}

fn check_open(state: &ConnectionState, payload: &Vec<u8>, template: &Template) -> (ok: bool)
    ensures
        ok == open_needs(state@, payload@, *template),
{
    let request: messages::OpenExtendedMiningChannel = match messages::read_open_channel(payload) {
        Some(m) => m,
        None => {
            return true;
        },
    };
    if state.next_channel_id == u32::MAX {
        return false;
    }
    if template.read_target().is_err() {
        return true;
    }
    if state.next_job_id == u32::MAX {
        return false;
    }
    let user_identity: String = messages::utf8_or_hex(&request.user_identity);
    let address: String = parse_miner_address(user_identity.as_str(), state.pool_address.as_str());
    template.check_ready(address.as_str())
}

fn check_broadcast(state: &ConnectionState, template: &Template) -> (ok: bool)
    ensures
        ok == broadcast_needs(state@.channels, *template),
{
    let ids: Vec<u32> = state.channel_ids();
    let mut i: usize = 0;
    while i < ids.len()
        invariant
            i <= ids@.len(),
            lists_channels(ids@, state@.channels),
            forall|j: int|
                0 <= j < i ==> template.is_ready(state@.channels[#[trigger] ids@[j]].miner_address),
        decreases ids@.len() - i,
    {
        let id: u32 = ids[i];
        assert(ids@.to_set().contains(ids@[i as int]));
        match state.channels.get(&id) {
            Some(channel) => {
                assert(state@.channels[id] == channel@);
                if !template.check_ready(channel.miner_address.as_str()) {
                    assert(state@.channels.contains_key(id));
                    return false;
                }
            },
            None => {
                assert(false);
            },
        }
        i = i + 1;
    }
    assert forall|id: u32| #[trigger] state@.channels.contains_key(id) implies template.is_ready(
        state@.channels[id].miner_address,
    ) by {
        assert(ids@.to_set().contains(id));
        let j = choose|j: int| 0 <= j < ids@.len() && ids@[j] == id;
        assert(template.is_ready(state@.channels[ids@[j]].miner_address));
    }
    true
}

/// Whether an event can be served.
pub fn can_handle(
    state: &ConnectionState,
    event: &ConnectionEvent,
    template: &Template,
) -> (ok: bool)
    ensures
        ok == event_needs(state@, *event, *template),
{
    match event {
        ConnectionEvent::Frame { frame, .. } => match frame {
            IncomingFrame::HandShake => true,
            IncomingFrame::Sv2 { msg_type, payload, .. } => *msg_type
                != messages::OPEN_EXTENDED_MINING_CHANNEL || check_open(state, payload, template),
        },
        ConnectionEvent::ReadFailed => true,
        ConnectionEvent::TemplateChanged => check_broadcast(state, template),
    }
}

/// Serves one event where it can be served; else nothing happens.
pub fn handle_event_checked(
    state: &mut ConnectionState,
    event: &ConnectionEvent,
    template: &Template,
) -> (out: Option<Step>)
    ensures
        match out {
            Some(step) => event_needs(old(state)@, *event, *template) && event_step(
                old(state)@,
                *event,
                *template,
                final(state)@,
                step@,
            ),
            None => !event_needs(old(state)@, *event, *template) && final(state)@ == old(state)@,
        },
{
    if can_handle(state, event, template) {
        Some(handle_event(state, event, template))
    } else {
        None
    }
}

/// Whatever happens on a connection keeps its state well-formed, changes no channel
/// that is open, closes none, and forgets no job.
#[verifier::spinoff_prover]
#[verifier::rlimit(60)]
pub proof fn events_keep_the_connection(
    before: ConnectionView,
    event: ConnectionEvent,
    template: Template,
    after: ConnectionView,
    step: StepView,
)
    requires
        before.well_formed(),
        event_needs(before, event, template),
        event_step(before, event, template, after, step),
    ensures
        after.well_formed(),
        after.next_channel_id >= before.next_channel_id,
        after.pool_address == before.pool_address,
        forall|id: u32| #[trigger]
            before.channels.contains_key(id) ==> after.channels.contains_key(id)
                && after.channels[id] == before.channels[id],
        forall|key: u64| #[trigger]
            before.jobs.contains_key(key) ==> after.jobs.contains_key(key)
                && before.jobs[key].is_prefix_of(after.jobs[key]),
{
    match event {
        ConnectionEvent::Frame { frame, channel_target } => {
            frames_keep_the_connection(before, frame, channel_target, template);
        },
        ConnectionEvent::ReadFailed => {},
        ConnectionEvent::TemplateChanged => {
            let ids = choose|ids: Seq<u32>|
                {
                    let sent = #[trigger] broadcast(before.channels, ids, template);
                    &&& lists_channels(ids, before.channels)
                    &&& after == after_broadcast(before, ids, template)
                    &&& step == plain_step(
                        sent.0,
                        match sent.1 {
                            None => NextStep::Continue,
                            Some(error) => NextStep::ContinueAfter { error },
                        },
                    )
                };
            assert forall|i: int| 0 <= i < ids.len() implies before.channels.contains_key(
                #[trigger] ids[i],
            ) by {
                assert(ids.to_set().contains(ids[i]));
            }
            lemma_broadcast_keys(before.jobs, before.channels, ids, template);
        },
    }
}

/// What a frame brings about is passed on: its answers, the share that counts and the
/// block that was found, and the connection ends exactly where the frame meets an error. A
/// request for a channel is served as such, a share is checked as such.
pub proof fn what_a_frame_brings_about_is_passed_on(
    before: ConnectionView,
    frame: IncomingFrame,
    channel_target: Option<[u8; 32]>,
    template: Template,
    after: ConnectionView,
    step: StepView,
)
    requires
        event_step(
            before,
            ConnectionEvent::Frame { frame, channel_target },
            template,
            after,
            step,
        ),
    ensures
        frame matches IncomingFrame::Sv2 { msg_type, payload, .. } ==> {
            let effect = if msg_type == 0x13 {
                open_payload_effect(before, payload@, channel_target, template)
            } else {
                shares::submit_effect(before, payload@)
            };
            msg_type == 0x13 || msg_type == 0x1b ==> {
                &&& after == effect.state
                &&& step.frames == effect.frames
                &&& step.share == effect.share
                &&& step.solution == effect.solution
                &&& effect.error is None <==> step.next == NextStep::Continue
                &&& effect.error matches Some(error) ==> step.next == (NextStep::CloseWith {
                    error,
                })
            }
        },
        frame is HandShake ==> after == before && step == plain_step(
            Seq::empty(),
            NextStep::CloseWith { error: MessageError::UnexpectedHandshake },
        ),
{
}

/// A change of the template changes nothing of a connection but the jobs that are kept, and
/// sends what the broadcast over all open channels, each once, sends; it goes on, and tells
/// the error that the broadcast met, if it met one.
pub proof fn a_change_of_the_template_is_broadcast(
    before: ConnectionView,
    template: Template,
    after: ConnectionView,
    step: StepView,
) -> (ids: Seq<u32>)
    requires
        event_step(before, ConnectionEvent::TemplateChanged, template, after, step),
    ensures
        ids.no_duplicates(),
        forall|id: u32| ids.contains(id) <==> before.channels.contains_key(id),
        after == (ConnectionView { jobs: after.jobs, ..before }),
        after.jobs == broadcast_jobs(before.jobs, before.channels, ids, template),
        step.frames == broadcast(before.channels, ids, template).0,
        match broadcast(before.channels, ids, template).1 {
            None => step.next == NextStep::Continue,
            Some(error) => step.next == (NextStep::ContinueAfter { error }),
        },
        step.share is None && step.solution is None,
{
    let ids = choose|ids: Seq<u32>|
        {
            let sent = #[trigger] broadcast(before.channels, ids, template);
            &&& lists_channels(ids, before.channels)
            &&& after == after_broadcast(before, ids, template)
            &&& step == plain_step(
                sent.0,
                match sent.1 {
                    None => NextStep::Continue,
                    Some(error) => NextStep::ContinueAfter { error },
                },
            )
        };
    assert forall|id: u32| ids.contains(id) <==> before.channels.contains_key(id) by {
        assert(ids.contains(id) <==> ids.to_set().contains(id));
    }
    ids
}

/// What is sent is seen as it is: every frame in its place, and the share and the block.
pub proof fn steps_are_seen_as_they_are(step: Step, i: int)
    ensures
        step@.frames.len() == step.frames@.len(),
        0 <= i < step.frames@.len() ==> step@.frames[i] == step.frames@[i]@,
        frame_views(step.frames@) == step@.frames,
        step@.next == step.next,
        step@.share == shares::accepted_view(step.share),
        step@.solution == shares::solution_view(step.solution),
{
}

/// Only a frame with an error, or a failed read, ends a connection; a share that can
/// be read, an unknown message and a change of the template never do.
pub proof fn what_ends_a_connection(
    before: ConnectionView,
    event: ConnectionEvent,
    template: Template,
    after: ConnectionView,
    step: StepView,
)
    requires
        event_step(before, event, template, after, step),
    ensures
        event is TemplateChanged ==> !(step.next is Close) && !(step.next is CloseWith),
        event matches ConnectionEvent::Frame { frame, .. } ==> frame matches IncomingFrame::Sv2 {
            msg_type,
            payload,
            ..
        } ==> {
            &&& msg_type == messages::SUBMIT_SHARES_EXTENDED && messages::submit_at_front(
                payload@,
            ) is Some ==> step.next == NextStep::Continue && after == before && step.frames.len()
                == 1
            &&& msg_type != messages::OPEN_EXTENDED_MINING_CHANNEL && msg_type
                != messages::SUBMIT_SHARES_EXTENDED ==> step == plain_step(
                Seq::empty(),
                NextStep::Continue,
            ) && after == before
        },
        event is ReadFailed <==> step.next is Close,
        !(step.next is Refuse),
{
}

// ── Before and after the setup ────────────────────────────────────────────────

/// A connection from its first frame on.
pub struct Connection {
    /// Whether the connection was set up.
    pub accepted: bool,
    pub state: ConnectionState,
}

#[verifier::ext_equal]
pub struct PhaseView {
    pub accepted: bool,
    pub state: ConnectionView,
}

impl View for Connection {
    type V = PhaseView;

    open spec fn view(&self) -> PhaseView {
        PhaseView { accepted: self.accepted, state: self.state@ }
    }
}

/// What the first frame is answered with.
pub open spec fn setup_frames(frame: IncomingFrame) -> Seq<Seq<u8>> {
    match setup_reply(frame) {
        Some(reply) => seq![reply],
        None => Seq::empty(),
    }
}

/// What an event needs in either phase.
pub open spec fn serve_needs(
    before: PhaseView,
    event: ConnectionEvent,
    template: Template,
) -> bool {
    before.accepted ==> event_needs(before.state, event, template)
}

/// What an event may do in either phase. The first frame has to set the connection
/// up: it is answered, and any other than an acceptable `SetupConnection` ends the
/// connection. Until then a change of the template does nothing.
pub open spec fn serve_step(
    before: PhaseView,
    event: ConnectionEvent,
    template: Template,
    after: PhaseView,
    step: StepView,
) -> bool {
    if before.accepted {
        &&& after.accepted
        &&& event_step(before.state, event, template, after.state, step)
    } else {
        match event {
            ConnectionEvent::Frame { frame, .. } => {
                &&& after == (PhaseView {
                    accepted: setup_error(frame) is None,
                    state: before.state,
                })
                &&& step == plain_step(
                    setup_frames(frame),
                    match setup_error(frame) {
                        None => NextStep::Continue,
                        Some(error) => NextStep::Refuse { error },
                    },
                )
            },
            ConnectionEvent::ReadFailed => {
                &&& after == before
                &&& step == plain_step(Seq::empty(), NextStep::Close)
            },
            ConnectionEvent::TemplateChanged => {
                &&& after == before
                &&& step == plain_step(Seq::empty(), NextStep::Continue)
            },
        }
    }
}

impl Connection {
    /// A connection that waits for its first frame.
    pub fn new(pool_address: String) -> (connection: Self)
        ensures
            connection@ == (PhaseView {
                accepted: false,
                state: ConnectionView {
                    next_channel_id: 0,
                    next_job_id: 1,
                    channels: Map::empty(),
                    jobs: Map::empty(),
                    pool_address: pool_address@,
                },
            }),
            connection@.state.well_formed(),
    {
        Connection { accepted: false, state: ConnectionState::new(pool_address) }
    }

    /// Serves one event where it can be served; else nothing happens.
    pub fn serve(&mut self, event: &ConnectionEvent, template: &Template) -> (out: Option<
        Step,
    >)
        ensures
            match out {
                Some(step) => serve_needs(old(self)@, *event, *template) && serve_step(
                    old(self)@,
                    *event,
                    *template,
                    final(self)@,
                    step@,
                ),
                None => !serve_needs(old(self)@, *event, *template) && final(self)@ == old(self)@,
            },
    {
        if self.accepted {
            return handle_event_checked(&mut self.state, event, template);
        }
        let mut frames: Vec<Vec<u8>> = Vec::new();
        assert(frame_views(frames@) =~= Seq::empty());
        match event {
            ConnectionEvent::Frame { frame, .. } => {
                let answer: SetupAnswer = handle_setup_connection(frame);
                if let Some(reply) = answer.reply {
                    frames.push(reply);
                }
                assert(frame_views(frames@) =~= setup_frames(*frame));
                let next: NextStep = match answer.outcome {
                    Ok(_) => NextStep::Continue,
                    Err(error) => NextStep::Refuse { error },
                };
                self.accepted = answer.outcome.is_ok();
                Some(Step { frames, next, share: None, solution: None })
            },
            ConnectionEvent::ReadFailed => Some(
                Step { frames, next: NextStep::Close, share: None, solution: None },
            ),
            ConnectionEvent::TemplateChanged => Some(
                Step { frames, next: NextStep::Continue, share: None, solution: None },
            ),
        }
    }
}

/// Before the acceptance nothing but the answer to the setup is sent, no channel is
/// opened and no job is kept; the first frame either sets the connection up, and is
/// answered by the acceptance, or ends it.
pub proof fn nothing_happens_before_the_setup(
    before: PhaseView,
    event: ConnectionEvent,
    template: Template,
    after: PhaseView,
    step: StepView,
)
    requires
        !before.accepted,
        serve_step(before, event, template, after, step),
    ensures
        after.state == before.state,
        step.share is None,
        step.solution is None,
        after.accepted <==> step.frames == seq![success_frame()],
        after.accepted ==> event is Frame && step.next == NextStep::Continue,
        event is Frame && !after.accepted ==> step.next is Refuse,
        forall|i: int|
            0 <= i < step.frames.len() ==> #[trigger] step.frames[i] == success_frame() || exists|
                code: Seq<char>,
            | step.frames[i] == error_frame(code),
{
    match event {
        ConnectionEvent::Frame { frame, .. } => {
            if setup_error(frame) is Some && error_code(setup_error(frame)->0) is Some {
                let code = error_code(setup_error(frame)->0)->0;
                lemma_error_is_no_success(code);
                assert(step.frames[0] == error_frame(code));
                if step.frames == seq![success_frame()] {
                    assert(step.frames[0] == success_frame());
                }
            } else if setup_error(frame) is Some {
                assert(step.frames.len() == 0);
            }
        },
        ConnectionEvent::ReadFailed => {
            assert(step.frames.len() == 0);
        },
        ConnectionEvent::TemplateChanged => {
            assert(step.frames.len() == 0);
        },
    }
}

/// Before the acceptance a change of the template goes unnoticed, and where nothing can be
/// read any more the connection ends without a word.
pub proof fn only_a_frame_counts_before_the_setup(
    before: PhaseView,
    event: ConnectionEvent,
    template: Template,
    after: PhaseView,
    step: StepView,
)
    requires
        !before.accepted,
        event !is Frame,
        serve_step(before, event, template, after, step),
    ensures
        after == before,
        step.frames.len() == 0,
        event is TemplateChanged ==> step.next == NextStep::Continue,
        event is ReadFailed ==> step.next == NextStep::Close,
        serve_needs(before, event, template),
{
}

/// Once a connection is set up, it serves what comes.
pub proof fn after_the_setup_events_are_served(
    before: PhaseView,
    event: ConnectionEvent,
    template: Template,
    after: PhaseView,
    step: StepView,
)
    requires
        before.accepted,
        serve_step(before, event, template, after, step),
    ensures
        after.accepted,
        event_step(before.state, event, template, after.state, step),
        serve_needs(before, event, template) <==> event_needs(before.state, event, template),
{
}

/// A connection that was set up stays so, and its state stays well-formed in either
/// phase.
pub proof fn serving_keeps_the_connection(
    before: PhaseView,
    event: ConnectionEvent,
    template: Template,
    after: PhaseView,
    step: StepView,
)
    requires
        before.state.well_formed(),
        serve_needs(before, event, template),
        serve_step(before, event, template, after, step),
    ensures
        before.accepted ==> after.accepted,
        after.state.well_formed(),
{
    if before.accepted {
        events_keep_the_connection(before.state, event, template, after.state, step);
    }
}

} // verus!
