//! Stratum V2 messages on the wire: what the pool sends and what it reads.
use crate::bytes;
use crate::node_ipc;
use crate::node_ipc::SubmitSolutionData;
use vstd::prelude::*;

verus! {

/// `SetupConnection`.
pub const SETUP_CONNECTION: u8 = 0x00;

/// `SetupConnection.Success`.
pub const SETUP_CONNECTION_SUCCESS: u8 = 0x01;

/// `SetupConnection.Error`.
pub const SETUP_CONNECTION_ERROR: u8 = 0x02;

/// `OpenExtendedMiningChannel`.
pub const OPEN_EXTENDED_MINING_CHANNEL: u8 = 0x13;

/// `OpenExtendedMiningChannel.Success`.
pub const OPEN_EXTENDED_MINING_CHANNEL_SUCCESS: u8 = 0x14;

/// `SubmitSharesExtended`.
pub const SUBMIT_SHARES_EXTENDED: u8 = 0x1b;

/// `SubmitShares.Success`.
pub const SUBMIT_SHARES_SUCCESS: u8 = 0x1c;

/// `SubmitShares.Error`.
pub const SUBMIT_SHARES_ERROR: u8 = 0x1d;

/// `NewExtendedMiningJob`.
pub const NEW_EXTENDED_MINING_JOB: u8 = 0x1f;

/// `SetNewPrevHash` of the Mining Protocol.
pub const MINING_SET_NEW_PREV_HASH: u8 = 0x20;

/// `CoinbaseOutputConstraints`.
pub const COINBASE_OUTPUT_CONSTRAINTS: u8 = 0x70;

/// `NewTemplate`.
pub const NEW_TEMPLATE: u8 = 0x71;

/// `SetNewPrevHash` of the Template Distribution Protocol.
pub const SET_NEW_PREV_HASH: u8 = 0x72;

/// `SubmitSolution` of the Template Distribution Protocol.
pub const SUBMIT_SOLUTION: u8 = 0x76;

/// The longest byte string behind a two-byte length.
pub const B064K_MAX: usize = 65535;

/// The longest byte string behind a one-byte length, and the longest sequence.
pub const B0255_MAX: usize = 255;

/// Which of the protocols a connection is for.
#[derive(Debug, Clone, Copy, PartialEq, Eq, Structural)]
pub enum Protocol {
    Mining,
    JobDeclaration,
    TemplateDistribution,
}

/// The first message on a connection.
#[derive(Debug, Clone)]
pub struct SetupConnection {
    pub protocol: Protocol,
    pub min_version: u16,
    pub max_version: u16,
    pub flags: u32,
    pub endpoint_host: Vec<u8>,
    pub endpoint_port: u16,
    pub vendor: Vec<u8>,
    pub hardware_version: Vec<u8>,
    pub firmware: Vec<u8>,
    pub device_id: Vec<u8>,
}

/// What the pool reads of a request for an extended channel.
#[derive(Debug, Clone)]
pub struct OpenExtendedMiningChannel {
    pub request_id: u32,
    pub user_identity: Vec<u8>,
}

/// The grant of an extended channel.
#[derive(Debug, Clone)]
pub struct OpenExtendedMiningChannelSuccess {
    pub request_id: u32,
    pub channel_id: u32,
    pub target: [u8; 32],
    pub extranonce_size: u16,
    pub extranonce_prefix: [u8; 32],
    pub group_channel_id: u32,
}

/// A share of an extended channel.
#[derive(Debug, Clone)]
pub struct SubmitSharesExtended {
    pub channel_id: u32,
    pub sequence_number: u32,
    pub job_id: u32,
    pub nonce: u32,
    pub ntime: u32,
    pub version: u32,
    /// What the miner rolled behind its channel's extranonce prefix.
    pub extranonce: Vec<u8>,
}

/// The block that the channel's next jobs build on.
#[derive(Debug, Clone)]
pub struct SetNewPrevHash {
    pub channel_id: u32,
    pub job_id: u32,
    pub prev_hash: [u8; 32],
    pub min_ntime: u32,
    pub nbits: u32,
}

/// A job for an extended channel.
#[derive(Debug, Clone)]
pub struct NewExtendedMiningJob {
    pub channel_id: u32,
    pub job_id: u32,
    /// Nothing in a future job, which waits for a `SetNewPrevHash` that names it.
    pub min_ntime: Option<u32>,
    pub version: u32,
    pub version_rolling_allowed: bool,
    pub merkle_path: Vec<[u8; 32]>,
    pub coinbase_tx_prefix: Vec<u8>,
    pub coinbase_tx_suffix: Vec<u8>,
}

#[verifier::ext_equal]
pub struct SetupView {
    pub protocol: Protocol,
    pub min_version: u16,
    pub max_version: u16,
    pub flags: u32,
    pub endpoint_host: Seq<u8>,
    pub endpoint_port: u16,
    pub vendor: Seq<u8>,
    pub hardware_version: Seq<u8>,
    pub firmware: Seq<u8>,
    pub device_id: Seq<u8>,
}

#[verifier::ext_equal]
pub struct OpenView {
    pub request_id: u32,
    pub user_identity: Seq<u8>,
}

#[verifier::ext_equal]
pub struct SubmitView {
    pub channel_id: u32,
    pub sequence_number: u32,
    pub job_id: u32,
    pub nonce: u32,
    pub ntime: u32,
    pub version: u32,
    pub extranonce: Seq<u8>,
}

#[verifier::ext_equal]
pub struct OpenSuccessView {
    pub request_id: u32,
    pub channel_id: u32,
    pub target: Seq<u8>,
    pub extranonce_size: u16,
    pub extranonce_prefix: Seq<u8>,
    pub group_channel_id: u32,
}

#[verifier::ext_equal]
pub struct PrevHashView {
    pub channel_id: u32,
    pub job_id: u32,
    pub prev_hash: Seq<u8>,
    pub min_ntime: u32,
    pub nbits: u32,
}

#[verifier::ext_equal]
pub struct JobView {
    pub channel_id: u32,
    pub job_id: u32,
    pub min_ntime: Option<u32>,
    pub version: u32,
    pub version_rolling_allowed: bool,
    pub merkle_path: Seq<Seq<u8>>,
    pub coinbase_tx_prefix: Seq<u8>,
    pub coinbase_tx_suffix: Seq<u8>,
}

impl View for SetupConnection {
    type V = SetupView;

    open spec fn view(&self) -> SetupView {
        SetupView {
            protocol: self.protocol,
            min_version: self.min_version,
            max_version: self.max_version,
            flags: self.flags,
            endpoint_host: self.endpoint_host@,
            endpoint_port: self.endpoint_port,
            vendor: self.vendor@,
            hardware_version: self.hardware_version@,
            firmware: self.firmware@,
            device_id: self.device_id@,
        }
    }
}

impl View for OpenExtendedMiningChannel {
    type V = OpenView;

    open spec fn view(&self) -> OpenView {
        OpenView { request_id: self.request_id, user_identity: self.user_identity@ }
    }
}

impl View for SubmitSharesExtended {
    type V = SubmitView;

    open spec fn view(&self) -> SubmitView {
        SubmitView {
            channel_id: self.channel_id,
            sequence_number: self.sequence_number,
            job_id: self.job_id,
            nonce: self.nonce,
            ntime: self.ntime,
            version: self.version,
            extranonce: self.extranonce@,
        }
    }
}

impl View for OpenExtendedMiningChannelSuccess {
    type V = OpenSuccessView;

    open spec fn view(&self) -> OpenSuccessView {
        OpenSuccessView {
            request_id: self.request_id,
            channel_id: self.channel_id,
            target: self.target@,
            extranonce_size: self.extranonce_size,
            extranonce_prefix: self.extranonce_prefix@,
            group_channel_id: self.group_channel_id,
        }
    }
}

impl View for SetNewPrevHash {
    type V = PrevHashView;

    open spec fn view(&self) -> PrevHashView {
        PrevHashView {
            channel_id: self.channel_id,
            job_id: self.job_id,
            prev_hash: self.prev_hash@,
            min_ntime: self.min_ntime,
            nbits: self.nbits,
        }
    }
}

impl View for NewExtendedMiningJob {
    type V = JobView;

    open spec fn view(&self) -> JobView {
        JobView {
            channel_id: self.channel_id,
            job_id: self.job_id,
            min_ntime: self.min_ntime,
            version: self.version,
            version_rolling_allowed: self.version_rolling_allowed,
            merkle_path: self.merkle_path@.map_values(|h: [u8; 32]| h@),
            coinbase_tx_prefix: self.coinbase_tx_prefix@,
            coinbase_tx_suffix: self.coinbase_tx_suffix@,
        }
    }
}

// ── Layout ────────────────────────────────────────────────────────────────────

/// A frame: the extension type with the channel bit, the message type, the length
/// of the payload, the payload.
pub open spec fn frame(msg_type: u8, channel_msg: bool, payload: Seq<u8>) -> Seq<u8> {
    let extension: nat = if channel_msg {
        0x8000
    } else {
        0
    };
    bytes::le(extension, 2) + seq![msg_type] + bytes::le(payload.len(), 3) + payload
}

/// A byte string behind a one-byte length.
pub open spec fn short(data: Seq<u8>) -> Seq<u8> {
    seq![data.len() as u8] + data
}

/// A byte string behind a two-byte length.
pub open spec fn long(data: Seq<u8>) -> Seq<u8> {
    bytes::le(data.len(), 2) + data
}

/// Hashes one after the other.
pub open spec fn joined(hashes: Seq<Seq<u8>>) -> Seq<u8>
    decreases hashes.len(),
{
    if hashes.len() == 0 {
        Seq::empty()
    } else {
        hashes[0] + joined(hashes.drop_first())
    }
}

pub open spec fn protocol_byte(protocol: Protocol) -> u8 {
    match protocol {
        Protocol::Mining => 0,
        Protocol::JobDeclaration => 1,
        Protocol::TemplateDistribution => 2,
    }
}

pub open spec fn setup_payload(m: SetupView) -> Seq<u8> {
    seq![protocol_byte(m.protocol)] + bytes::le(m.min_version as nat, 2) + bytes::le(
        m.max_version as nat,
        2,
    ) + bytes::le(m.flags as nat, 4) + short(m.endpoint_host) + bytes::le(
        m.endpoint_port as nat,
        2,
    ) + short(m.vendor) + short(m.hardware_version) + short(m.firmware) + short(m.device_id)
}

/// Whether every text of the message has a one-byte length.
pub open spec fn setup_fits(m: SetupView) -> bool {
    m.endpoint_host.len() <= 255 && m.vendor.len() <= 255 && m.hardware_version.len() <= 255
        && m.firmware.len() <= 255 && m.device_id.len() <= 255
}

pub open spec fn setup_success_payload(used_version: u16, flags: u32) -> Seq<u8> {
    bytes::le(used_version as nat, 2) + bytes::le(flags as nat, 4)
}

pub open spec fn setup_error_payload(flags: u32, code: Seq<u8>) -> Seq<u8> {
    bytes::le(flags as nat, 4) + short(code)
}

pub open spec fn open_success_payload(m: OpenSuccessView) -> Seq<u8> {
    bytes::le(m.request_id as nat, 4) + bytes::le(m.channel_id as nat, 4) + m.target + bytes::le(
        m.extranonce_size as nat,
        2,
    ) + short(m.extranonce_prefix) + bytes::le(m.group_channel_id as nat, 4)
}

/// The acceptance of so many shares up to a sequence number.
pub open spec fn submit_success_payload(
    channel_id: u32,
    sequence_number: u32,
    count: u32,
    sum: u64,
) -> Seq<u8> {
    bytes::le(channel_id as nat, 4) + bytes::le(sequence_number as nat, 4) + bytes::le(
        count as nat,
        4,
    ) + bytes::le(sum as nat, 8)
}

/// The refusal of a share.
pub open spec fn submit_error_payload(
    channel_id: u32,
    sequence_number: u32,
    code: Seq<u8>,
) -> Seq<u8> {
    bytes::le(channel_id as nat, 4) + bytes::le(sequence_number as nat, 4) + short(code)
}

pub open spec fn prev_hash_payload(m: PrevHashView) -> Seq<u8> {
    bytes::le(m.channel_id as nat, 4) + bytes::le(m.job_id as nat, 4) + m.prev_hash + bytes::le(
        m.min_ntime as nat,
        4,
    ) + bytes::le(m.nbits as nat, 4)
}

pub open spec fn option_payload(value: Option<u32>) -> Seq<u8> {
    match value {
        Some(n) => seq![1u8] + bytes::le(n as nat, 4),
        None => seq![0u8],
    }
}

pub open spec fn job_payload(m: JobView) -> Seq<u8> {
    let rolling: u8 = if m.version_rolling_allowed {
        1
    } else {
        0
    };
    bytes::le(m.channel_id as nat, 4) + bytes::le(m.job_id as nat, 4) + option_payload(m.min_ntime)
        + bytes::le(m.version as nat, 4) + seq![rolling] + seq![m.merkle_path.len() as u8] + joined(
        m.merkle_path,
    ) + long(m.coinbase_tx_prefix) + long(m.coinbase_tx_suffix)
}

/// Whether the job's path and coinbase pieces fit their length fields.
pub open spec fn job_fits(m: JobView) -> bool {
    m.merkle_path.len() <= 255 && m.coinbase_tx_prefix.len() <= 65535
        && m.coinbase_tx_suffix.len() <= 65535
}

pub open spec fn constraints_payload(max_size: u32, max_sigops: u16) -> Seq<u8> {
    bytes::le(max_size as nat, 4) + bytes::le(max_sigops as nat, 2)
}

pub open spec fn solution_payload(m: node_ipc::SolutionView) -> Seq<u8> {
    bytes::le(m.template_id as nat, 8) + bytes::le(m.version as nat, 4) + bytes::le(
        m.header_timestamp as nat,
        4,
    ) + bytes::le(m.header_nonce as nat, 4) + long(m.coinbase_tx)
}

// ── Reading ───────────────────────────────────────────────────────────────────

/// The short byte string at `at` and the place behind it.
pub open spec fn short_at(data: Seq<u8>, at: int) -> Option<(Seq<u8>, int)> {
    if at < data.len() && at + 1 + data[at] <= data.len() {
        Some((data.subrange(at + 1, at + 1 + data[at]), at + 1 + data[at]))
    } else {
        None
    }
}

pub open spec fn protocol_of(b: u8) -> Option<Protocol> {
    if b == 0 {
        Some(Protocol::Mining)
    } else if b == 1 {
        Some(Protocol::JobDeclaration)
    } else if b == 2 {
        Some(Protocol::TemplateDistribution)
    } else {
        None
    }
}

/// The number in the `width` bytes at `at`.
pub open spec fn number_at(data: Seq<u8>, at: int, width: int) -> nat {
    bytes::le_value(data.subrange(at, at + width))
}

/// The `SetupConnection` at the front of `data`; bytes behind it do not matter.
pub open spec fn setup_at_front(data: Seq<u8>) -> Option<SetupView> {
    if data.len() < 9 {
        None
    } else if let Some((endpoint_host, a)) = short_at(data, 9) {
        if a + 2 > data.len() {
            None
        } else if let Some((vendor, b)) = short_at(data, a + 2) {
            if let Some((hardware_version, c)) = short_at(data, b) {
                if let Some((firmware, d)) = short_at(data, c) {
                    if let Some((device_id, _)) = short_at(data, d) {
                        if let Some(protocol) = protocol_of(data[0]) {
                            Some(
                                SetupView {
                                    protocol,
                                    min_version: number_at(data, 1, 2) as u16,
                                    max_version: number_at(data, 3, 2) as u16,
                                    flags: number_at(data, 5, 4) as u32,
                                    endpoint_host,
                                    endpoint_port: number_at(data, a, 2) as u16,
                                    vendor,
                                    hardware_version,
                                    firmware,
                                    device_id,
                                },
                            )
                        } else {
                            None
                        }
                    } else {
                        None
                    }
                } else {
                    None
                }
            } else {
                None
            }
        } else {
            None
        }
    } else {
        None
    }
}

/// The `OpenExtendedMiningChannel` at the front of `data`: behind the identity
/// stand a hash rate of 4 bytes, a target of 32 and a size of 2.
pub open spec fn open_at_front(data: Seq<u8>) -> Option<OpenView> {
    if data.len() < 5 || data.len() < 43 + data[4] {
        None
    } else {
        Some(
            OpenView {
                request_id: number_at(data, 0, 4) as u32,
                user_identity: data.subrange(5, 5 + data[4]),
            },
        )
    }
}

/// The bits of the nominal hash rate that a request for a channel states.
pub open spec fn rate_bits(data: Seq<u8>) -> u32 {
    number_at(data, 5 + data[4], 4) as u32
}

/// The Template Distribution Protocol's `NewTemplate` at the front of `data`; a flag
/// is the lowest bit of its byte.
pub open spec fn new_template_at_front(data: Seq<u8>) -> Option<node_ipc::NewTemplateView> {
    if data.len() < 17 {
        None
    } else if let Some((coinbase_prefix, a)) = short_at(data, 17) {
        let b = a + 18 + number_at(data, a + 16, 2);
        if a + 18 > data.len() || b + 5 > data.len() || b + 5 + 32 * data[b + 4] > data.len() {
            None
        } else {
            Some(
                node_ipc::NewTemplateView {
                    template_id: number_at(data, 0, 8) as u64,
                    future_template: data[8] % 2 == 1,
                    version: number_at(data, 9, 4) as u32,
                    coinbase_tx_version: number_at(data, 13, 4) as u32,
                    coinbase_prefix,
                    coinbase_tx_input_sequence: number_at(data, a, 4) as u32,
                    coinbase_tx_value_remaining: number_at(data, a + 4, 8) as u64,
                    coinbase_tx_outputs_count: number_at(data, a + 12, 4) as u32,
                    coinbase_tx_outputs: data.subrange(a + 18, b),
                    coinbase_tx_locktime: number_at(data, b, 4) as u32,
                    merkle_path: Seq::new(
                        data[b + 4] as nat,
                        |i: int| data.subrange(b + 5 + 32 * i, b + 37 + 32 * i),
                    ),
                },
            )
        }
    } else {
        None
    }
}

/// The Template Distribution Protocol's `SetNewPrevHash` at the front of `data`.
pub open spec fn tip_at_front(data: Seq<u8>) -> Option<node_ipc::TipView> {
    if data.len() < 80 {
        None
    } else {
        Some(
            node_ipc::TipView {
                template_id: number_at(data, 0, 8) as u64,
                prev_hash: data.subrange(8, 40),
                header_timestamp: number_at(data, 40, 4) as u32,
                n_bits: number_at(data, 44, 4) as u32,
                target: data.subrange(48, 80),
            },
        )
    }
}

/// The `SubmitSharesExtended` at the front of `data`: six numbers, and an extranonce
/// of at most 32 bytes behind its length.
pub open spec fn submit_at_front(data: Seq<u8>) -> Option<SubmitView> {
    if data.len() < 25 || data[24] > 32 || data.len() < 25 + data[24] {
        None
    } else {
        Some(
            SubmitView {
                channel_id: number_at(data, 0, 4) as u32,
                sequence_number: number_at(data, 4, 4) as u32,
                job_id: number_at(data, 8, 4) as u32,
                nonce: number_at(data, 12, 4) as u32,
                ntime: number_at(data, 16, 4) as u32,
                version: number_at(data, 20, 4) as u32,
                extranonce: data.subrange(25, 25 + data[24]),
            },
        )
    }
}

proof fn lemma_number_reads_back(data: Seq<u8>, at: int, width: nat, value: nat)
    requires
        0 <= at,
        at + width <= data.len(),
        data.subrange(at, at + width as int) == bytes::le(value, width),
        width == 2 && value <= u16::MAX || width == 4 && value <= u32::MAX,
    ensures
        number_at(data, at, width as int) == value,
{
    bytes::lemma_pow256();
    bytes::lemma_le_round_trip(value, width);
}

proof fn lemma_short_reads_back(data: Seq<u8>, at: int, text: Seq<u8>)
    requires
        0 <= at,
        text.len() <= 255,
        at + 1 + text.len() <= data.len(),
        data.subrange(at, at + 1 + text.len()) == short(text),
    ensures
        short_at(data, at) == Some((text, (at + 1 + text.len()) as int)),
{
    let window = data.subrange(at, at + 1 + text.len());
    assert(data[at] == window[0]);
    assert(data.subrange(at + 1, at + 1 + text.len()) =~= window.drop_first());
    assert(short(text).drop_first() =~= text);
}

/// What was written as a `SetupConnection` is read back as the same message,
/// whatever stands behind it.
#[verifier::spinoff_prover]
#[verifier::rlimit(50)]
pub proof fn setup_reads_back(m: SetupView, rest: Seq<u8>)
    requires
        setup_fits(m),
    ensures
        setup_at_front(setup_payload(m) + rest) == Some(m),
{
    let data = setup_payload(m) + rest;
    bytes::lemma_le_len(m.min_version as nat, 2);
    bytes::lemma_le_len(m.max_version as nat, 2);
    bytes::lemma_le_len(m.flags as nat, 4);
    bytes::lemma_le_len(m.endpoint_port as nat, 2);
    let a: int = 10 + m.endpoint_host.len() as int;
    let b: int = a + 3 + m.vendor.len();
    let c: int = b + 1 + m.hardware_version.len();
    let d: int = c + 1 + m.firmware.len();
    assert(data.subrange(1, 3) =~= bytes::le(m.min_version as nat, 2));
    assert(data.subrange(3, 5) =~= bytes::le(m.max_version as nat, 2));
    assert(data.subrange(5, 9) =~= bytes::le(m.flags as nat, 4));
    assert(data.subrange(9, a) =~= short(m.endpoint_host));
    assert(data.subrange(a, a + 2) =~= bytes::le(m.endpoint_port as nat, 2));
    assert(data.subrange(a + 2, b) =~= short(m.vendor));
    assert(data.subrange(b, c) =~= short(m.hardware_version));
    assert(data.subrange(c, d) =~= short(m.firmware));
    assert(data.subrange(d, d + 1 + m.device_id.len()) =~= short(m.device_id));
    lemma_number_reads_back(data, 1, 2, m.min_version as nat);
    lemma_number_reads_back(data, 3, 2, m.max_version as nat);
    lemma_number_reads_back(data, 5, 4, m.flags as nat);
    lemma_number_reads_back(data, a, 2, m.endpoint_port as nat);
    lemma_short_reads_back(data, 9, m.endpoint_host);
    lemma_short_reads_back(data, a + 2, m.vendor);
    lemma_short_reads_back(data, b, m.hardware_version);
    lemma_short_reads_back(data, c, m.firmware);
    lemma_short_reads_back(data, d, m.device_id);
    assert(data[0] == protocol_byte(m.protocol));
}

// ── The outside crates' codecs ────────────────────────────────────────────────

/// The error of `binary_sv2`'s codec.
#[verifier::external_type_specification]
#[verifier::external_body]
pub struct ExSv2Error(binary_sv2::Error);

/// `binary_sv2::from_bytes` of a `SetupConnection`: the message at the front of
/// the payload, and an error where a field runs over the end or the protocol is
/// unknown.
#[verifier::external_body]
fn setup_connection_from_bytes(payload: &Vec<u8>) -> (out: Result<
    SetupConnection,
    binary_sv2::Error,
>)
    ensures
        match out {
            Ok(m) => setup_at_front(payload@) == Some(m@),
            Err(_) => setup_at_front(payload@) is None,
        },
{
    let mut payload = payload.clone();
    let m: common_messages_sv2::SetupConnection = binary_sv2::from_bytes(&mut payload)?;
    let protocol = match m.protocol {
        common_messages_sv2::Protocol::MiningProtocol => Protocol::Mining,
        common_messages_sv2::Protocol::JobDeclarationProtocol => Protocol::JobDeclaration,
        common_messages_sv2::Protocol::TemplateDistributionProtocol => Protocol::TemplateDistribution,
    };
    let (min_version, max_version, flags) = (m.min_version, m.max_version, m.flags);
    let (endpoint_host, endpoint_port) = (m.endpoint_host.to_vec(), m.endpoint_port);
    let (vendor, hardware_version) = (m.vendor.to_vec(), m.hardware_version.to_vec());
    let (firmware, device_id) = (m.firmware.to_vec(), m.device_id.to_vec());
    Ok(SetupConnection { protocol, min_version, max_version, flags, endpoint_host, endpoint_port, vendor, hardware_version, firmware, device_id })
}

/// `binary_sv2::from_bytes` of an `OpenExtendedMiningChannel`: the message at the
/// front of the payload, and an error where a field runs over the end.
#[verifier::external_body]
fn open_channel_from_bytes(payload: &Vec<u8>) -> (out: Result<
    OpenExtendedMiningChannel,
    binary_sv2::Error,
>)
    ensures
        match out {
            Ok(m) => open_at_front(payload@) == Some(m@),
            Err(_) => open_at_front(payload@) is None,
        },
{
    let mut payload = payload.clone();
    let m: mining_sv2::OpenExtendedMiningChannel = binary_sv2::from_bytes(&mut payload)?;
    Ok(OpenExtendedMiningChannel { request_id: m.request_id, user_identity: m.user_identity.to_vec() })
}

/// `binary_sv2::from_bytes` of a `SubmitSharesExtended`: the message at the front of
/// the payload, and an error where a field runs over the end or the extranonce is
/// longer than 32 bytes.
#[verifier::external_body]
fn submit_shares_from_bytes(payload: &Vec<u8>) -> (out: Result<
    SubmitSharesExtended,
    binary_sv2::Error,
>)
    ensures
        match out {
            Ok(m) => submit_at_front(payload@) == Some(m@),
            Err(_) => submit_at_front(payload@) is None,
        },
{
    let mut payload = payload.clone();
    let m: mining_sv2::SubmitSharesExtended = binary_sv2::from_bytes(&mut payload)?;
    let (channel_id, sequence_number, job_id) = (m.channel_id, m.sequence_number, m.job_id);
    let (nonce, ntime, version) = (m.nonce, m.ntime, m.version);
    let extranonce = m.extranonce.to_vec();
    Ok(SubmitSharesExtended { channel_id, sequence_number, job_id, nonce, ntime, version, extranonce })
}

/// `binary_sv2::from_bytes` of a `NewTemplate`: the message at the front of the
/// payload, and an error where a field runs over the end.
#[verifier::external_body]
pub(crate) fn new_template_from_bytes(payload: &Vec<u8>) -> (out: Result<
    node_ipc::NewTemplate,
    binary_sv2::Error,
>)
    ensures
        match out {
            Ok(m) => new_template_at_front(payload@) == Some(m@),
            Err(_) => new_template_at_front(payload@) is None,
        },
{
    let mut payload = payload.clone();
    let m: template_distribution_sv2::NewTemplate = binary_sv2::from_bytes(&mut payload)?;
    let path = m.merkle_path.to_vec();
    let merkle_path = path.into_iter().map(|h| h.try_into().expect("32 bytes")).collect();
    let (template_id, future_template, version) = (m.template_id, m.future_template, m.version);
    let coinbase_tx_version = m.coinbase_tx_version;
    let coinbase_prefix = m.coinbase_prefix.to_vec();
    let coinbase_tx_input_sequence = m.coinbase_tx_input_sequence;
    let coinbase_tx_value_remaining = m.coinbase_tx_value_remaining;
    let coinbase_tx_outputs_count = m.coinbase_tx_outputs_count;
    let coinbase_tx_outputs = m.coinbase_tx_outputs.to_vec();
    let coinbase_tx_locktime = m.coinbase_tx_locktime;
    Ok(node_ipc::NewTemplate { template_id, future_template, version, coinbase_tx_version, coinbase_prefix, coinbase_tx_input_sequence, coinbase_tx_value_remaining, coinbase_tx_outputs_count, coinbase_tx_outputs, coinbase_tx_locktime, merkle_path })
}

/// `binary_sv2::from_bytes` of a Template Distribution Protocol `SetNewPrevHash`: the
/// message at the front of the payload, and an error where a field runs over the end.
#[verifier::external_body]
pub(crate) fn tip_from_bytes(payload: &Vec<u8>) -> (out: Result<
    node_ipc::SetNewPrevHash,
    binary_sv2::Error,
>)
    ensures
        match out {
            Ok(m) => tip_at_front(payload@) == Some(m@),
            Err(_) => tip_at_front(payload@) is None,
        },
{
    let mut payload = payload.clone();
    let m: template_distribution_sv2::SetNewPrevHash = binary_sv2::from_bytes(&mut payload)?;
    let (template_id, header_timestamp, n_bits) = (m.template_id, m.header_timestamp, m.n_bits);
    let prev_hash = m.prev_hash.to_vec().try_into().expect("32 bytes");
    let target = m.target.to_vec().try_into().expect("32 bytes");
    Ok(node_ipc::SetNewPrevHash { template_id, prev_hash, header_timestamp, n_bits, target })
}

/// The text of a user identity: its characters where it is UTF-8, else `0x` and
/// its bytes in hexadecimal.
pub open spec fn identity_text(identity: Seq<u8>) -> Seq<char> {
    if vstd::utf8::valid_utf8(identity) {
        vstd::utf8::decode_utf8(identity)
    } else {
        "0x"@ + crate::hexadecimal::encoded(identity)
    }
}

/// `binary_sv2::Str0255::as_utf8_or_hex`: the text where the bytes are UTF-8, else
/// `0x` and lowercase hexadecimal.
#[verifier::external_body]
pub(crate) fn utf8_or_hex(identity: &Vec<u8>) -> (text: String)
    requires
        identity@.len() <= 255,
    ensures
        text@ == identity_text(identity@),
{
    let identity = binary_sv2::Str0255::try_from(identity.clone()).expect("at most 255 bytes");
    identity.as_utf8_or_hex()
}

/// `binary_sv2::to_bytes` of a `SetupConnectionSuccess`: its fields in order,
/// integers little-endian.
#[verifier::external_body]
pub(crate) fn setup_success_to_bytes(used_version: u16, flags: u32) -> (payload: Vec<u8>)
    ensures
        payload@ == setup_success_payload(used_version, flags),
{
    let m = common_messages_sv2::SetupConnectionSuccess { used_version, flags };
    binary_sv2::to_bytes(m).expect("a buffer of the message's size")
}

/// `binary_sv2::to_bytes` of a `SetupConnectionError`: the flags, and the code
/// behind its length.
#[verifier::external_body]
pub(crate) fn setup_error_to_bytes(flags: u32, code: &str) -> (payload: Vec<u8>)
    requires
        vstd::utf8::encode_utf8(code@).len() <= 255,
    ensures
        payload@ == setup_error_payload(flags, vstd::utf8::encode_utf8(code@)),
{
    let error_code = code.to_string().try_into().expect("at most 255 bytes");
    let m = common_messages_sv2::SetupConnectionError { flags, error_code };
    binary_sv2::to_bytes(m).expect("a buffer of the message's size")
}

/// `binary_sv2::to_bytes` of a `SetupConnection`: its fields in order, integers
/// little-endian, texts behind their length.
#[verifier::external_body]
pub(crate) fn setup_connection_to_bytes(m: &SetupConnection) -> (payload: Vec<u8>)
    requires
        setup_fits(m@),
    ensures
        payload@ == setup_payload(m@),
{
    let text = |t: &Vec<u8>| binary_sv2::Str0255::try_from(t.clone()).expect("at most 255 bytes");
    let protocol = match m.protocol {
        Protocol::Mining => common_messages_sv2::Protocol::MiningProtocol,
        Protocol::JobDeclaration => common_messages_sv2::Protocol::JobDeclarationProtocol,
        Protocol::TemplateDistribution => common_messages_sv2::Protocol::TemplateDistributionProtocol,
    };
    let (min_version, max_version, flags) = (m.min_version, m.max_version, m.flags);
    let (endpoint_host, endpoint_port) = (text(&m.endpoint_host), m.endpoint_port);
    let (vendor, hardware_version) = (text(&m.vendor), text(&m.hardware_version));
    let (firmware, device_id) = (text(&m.firmware), text(&m.device_id));
    binary_sv2::to_bytes(common_messages_sv2::SetupConnection { protocol, min_version, max_version, flags, endpoint_host, endpoint_port, vendor, hardware_version, firmware, device_id }).expect("a buffer of the message's size")
}

/// `binary_sv2::to_bytes` of a `CoinbaseOutputConstraints`: its two fields,
/// little-endian.
#[verifier::external_body]
pub(crate) fn constraints_to_bytes(max_size: u32, max_sigops: u16) -> (payload: Vec<u8>)
    ensures
        payload@ == constraints_payload(max_size, max_sigops),
{
    let m = template_distribution_sv2::CoinbaseOutputConstraints {
        coinbase_output_max_additional_size: max_size,
        coinbase_output_max_additional_sigops: max_sigops,
    };
    binary_sv2::to_bytes(m).expect("a buffer of the message's size")
}

/// `binary_sv2::to_bytes` of a `SubmitSolution`: its fields in order, the coinbase
/// behind its length.
#[verifier::external_body]
pub(crate) fn solution_to_bytes(m: &SubmitSolutionData) -> (payload: Vec<u8>)
    requires
        m.coinbase_tx@.len() <= 65535,
    ensures
        payload@ == solution_payload(m@),
{
    let (template_id, version) = (m.template_id, m.version);
    let (header_timestamp, header_nonce) = (m.header_timestamp, m.header_nonce);
    let coinbase_tx = m.coinbase_tx.clone().try_into().expect("at most 65535 bytes");
    binary_sv2::to_bytes(template_distribution_sv2::SubmitSolution { template_id, version, header_timestamp, header_nonce, coinbase_tx }).expect("a buffer of the message's size")
}

/// `binary_sv2::to_bytes` of an `OpenExtendedMiningChannelSuccess`: its fields in
/// order, the extranonce prefix behind its length.
#[verifier::external_body]
pub(crate) fn open_success_to_bytes(m: &OpenExtendedMiningChannelSuccess) -> (payload: Vec<u8>)
    ensures
        payload@ == open_success_payload(m@),
{
    let (request_id, channel_id) = (m.request_id, m.channel_id);
    let (extranonce_size, group_channel_id) = (m.extranonce_size, m.group_channel_id);
    let target = m.target.into();
    let extranonce_prefix = m.extranonce_prefix.to_vec().try_into().expect("32 bytes");
    binary_sv2::to_bytes(mining_sv2::OpenExtendedMiningChannelSuccess { request_id, channel_id, target, extranonce_size, extranonce_prefix, group_channel_id }).expect("a buffer of the message's size")
}

/// `binary_sv2::to_bytes` of a `SubmitSharesSuccess`: its fields in order, integers
/// little-endian.
#[verifier::external_body]
pub(crate) fn submit_success_to_bytes(
    channel_id: u32,
    sequence_number: u32,
    count: u32,
    sum: u64,
) -> (payload: Vec<u8>)
    ensures
        payload@ == submit_success_payload(channel_id, sequence_number, count, sum),
{
    let m = mining_sv2::SubmitSharesSuccess {
        channel_id,
        last_sequence_number: sequence_number,
        new_submits_accepted_count: count,
        new_shares_sum: sum,
    };
    binary_sv2::to_bytes(m).expect("a buffer of the message's size")
}

/// `binary_sv2::to_bytes` of a `SubmitSharesError`: the channel, the sequence number,
/// and the code behind its length.
#[verifier::external_body]
pub(crate) fn submit_error_to_bytes(channel_id: u32, sequence_number: u32, code: &str) -> (payload:
    Vec<u8>)
    requires
        vstd::utf8::encode_utf8(code@).len() <= 255,
    ensures
        payload@ == submit_error_payload(
            channel_id,
            sequence_number,
            vstd::utf8::encode_utf8(code@),
        ),
{
    let error_code = code.to_string().try_into().expect("at most 255 bytes");
    let m = mining_sv2::SubmitSharesError { channel_id, sequence_number, error_code };
    binary_sv2::to_bytes(m).expect("a buffer of the message's size")
}

/// `binary_sv2::to_bytes` of a Mining Protocol `SetNewPrevHash`: its fields in
/// order, integers little-endian.
#[verifier::external_body]
pub(crate) fn prev_hash_to_bytes(m: &SetNewPrevHash) -> (payload: Vec<u8>)
    ensures
        payload@ == prev_hash_payload(m@),
{
    let (channel_id, job_id, min_ntime, nbits) = (m.channel_id, m.job_id, m.min_ntime, m.nbits);
    let prev_hash = m.prev_hash.into();
    let m = mining_sv2::SetNewPrevHash { channel_id, job_id, prev_hash, min_ntime, nbits };
    binary_sv2::to_bytes(m).expect("a buffer of the message's size")
}

/// `binary_sv2::to_bytes` of a `NewExtendedMiningJob`: its fields in order, the
/// optional time behind a 0 or 1, the path behind its count, the coinbase pieces
/// behind their lengths.
#[verifier::external_body]
pub(crate) fn job_to_bytes(m: &NewExtendedMiningJob) -> (payload: Vec<u8>)
    requires
        job_fits(m@),
    ensures
        payload@ == job_payload(m@),
{
    let (channel_id, job_id, version) = (m.channel_id, m.job_id, m.version);
    let version_rolling_allowed = m.version_rolling_allowed;
    let min_ntime = binary_sv2::Sv2Option::new(m.min_ntime);
    let path = m.merkle_path.iter().map(|h| (*h).into()).collect();
    let merkle_path = binary_sv2::Seq0255::new(path).expect("at most 255 hashes");
    let coinbase_tx_prefix = m.coinbase_tx_prefix.clone().try_into().expect("at most 65535 bytes");
    let coinbase_tx_suffix = m.coinbase_tx_suffix.clone().try_into().expect("at most 65535 bytes");
    binary_sv2::to_bytes(mining_sv2::NewExtendedMiningJob { channel_id, job_id, min_ntime, version, version_rolling_allowed, merkle_path, coinbase_tx_prefix, coinbase_tx_suffix }).expect("a buffer of the message's size")
}

// ── Frames ────────────────────────────────────────────────────────────────────

/// Puts the frame header before a payload.
pub fn framed(msg_type: u8, channel_msg: bool, payload: &Vec<u8>) -> (out: Vec<u8>)
    requires
        payload@.len() < 0x100_0000,
    ensures
        out@ == frame(msg_type, channel_msg, payload@),
{
    let mut out: Vec<u8> = Vec::new();
    let extension: u64 = if channel_msg {
        0x8000
    } else {
        0
    };
    bytes::put_le(&mut out, extension, 2);
    out.push(msg_type);
    bytes::put_le(&mut out, payload.len() as u64, 3);
    out.extend_from_slice(payload.as_slice());
    assert(out@ =~= frame(msg_type, channel_msg, payload@));
    out
}

/// A frame tells its type, whether it is a channel message, and where its payload
/// ends: the header is six bytes, and two frames that differ in any of these
/// differ in their bytes.
pub proof fn frame_reads_back(
    type_a: u8,
    channel_a: bool,
    payload_a: Seq<u8>,
    type_b: u8,
    channel_b: bool,
    payload_b: Seq<u8>,
)
    ensures
        frame(type_a, channel_a, payload_a).len() == 6 + payload_a.len(),
        frame(type_a, channel_a, payload_a) == frame(type_b, channel_b, payload_b) ==> type_a
            == type_b && channel_a == channel_b && payload_a == payload_b,
{
    let a = frame(type_a, channel_a, payload_a);
    let b = frame(type_b, channel_b, payload_b);
    bytes::lemma_le_len(0, 2);
    bytes::lemma_le_len(0x8000, 2);
    bytes::lemma_le_len(payload_a.len(), 3);
    bytes::lemma_le_len(payload_b.len(), 3);
    if a == b {
        assert(a[2] == type_a && b[2] == type_b);
        assert(a.skip(6) =~= payload_a);
        assert(b.skip(6) =~= payload_b);
        let ext_a: nat = if channel_a {
            0x8000
        } else {
            0
        };
        let ext_b: nat = if channel_b {
            0x8000
        } else {
            0
        };
        assert(a.take(2) =~= bytes::le(ext_a, 2));
        assert(b.take(2) =~= bytes::le(ext_b, 2));
        bytes::lemma_pow256();
        bytes::lemma_le_injective(ext_a, ext_b, 2);
    }
}

/// What the six bytes before a payload say: no extension, the channel bit as the highest
/// of the second byte, the type in the third, and the size of the payload in the next
/// three; the payload follows as it is.
pub proof fn frame_header_says(msg_type: u8, channel_msg: bool, payload: Seq<u8>)
    requires
        payload.len() < 0x100_0000,
    ensures
        ({
            let data = frame(msg_type, channel_msg, payload);
            &&& data.len() == 6 + payload.len()
            &&& data[0] == 0
            &&& data[1] == if channel_msg {
                0x80
            } else {
                0int
            }
            &&& data[2] == msg_type
            &&& bytes::le_value(data.subrange(3, 6)) == payload.len()
            &&& data.skip(6) == payload
        }),
{
    let extension: nat = if channel_msg {
        0x8000
    } else {
        0
    };
    let data = frame(msg_type, channel_msg, payload);
    bytes::lemma_le_len(extension, 2);
    bytes::lemma_le_len(payload.len(), 3);
    reveal_with_fuel(bytes::le, 3);
    reveal_with_fuel(vstd::arithmetic::power::pow, 4);
    bytes::lemma_le_round_trip(payload.len(), 3);
    assert(data.subrange(3, 6) =~= bytes::le(payload.len(), 3));
    assert(data.skip(6) =~= payload);
    assert(data[0] == bytes::le(extension, 2)[0]);
    assert(data[1] == bytes::le(extension, 2)[1]);
}

/// The rate of a request for a channel is read back, whatever stands before it and behind.
pub proof fn rate_reads_back(request_id: u32, identity: Seq<u8>, bits: u32, rest: Seq<u8>)
    requires
        identity.len() <= 255,
    ensures
        rate_bits(
            bytes::le(request_id as nat, 4) + short(identity) + bytes::le(bits as nat, 4) + rest,
        ) == bits,
{
    let data = bytes::le(request_id as nat, 4) + short(identity) + bytes::le(bits as nat, 4) + rest;
    let at: int = 5 + identity.len() as int;
    bytes::lemma_le_len(request_id as nat, 4);
    bytes::lemma_le_len(bits as nat, 4);
    assert(data[4] == identity.len() as u8);
    assert(data.subrange(at, at + 4) =~= bytes::le(bits as nat, 4));
    lemma_number_reads_back(data, at, 4, bits as nat);
}

/// Messages are seen with all their fields.
pub proof fn messages_are_seen_as_they_are(
    share: SubmitSharesExtended,
    open: OpenExtendedMiningChannel,
    prev: SetNewPrevHash,
    job: NewExtendedMiningJob,
    grant: OpenExtendedMiningChannelSuccess,
    i: int,
)
    ensures
        share@.channel_id == share.channel_id && share@.sequence_number == share.sequence_number
            && share@.job_id == share.job_id && share@.nonce == share.nonce && share@.ntime
            == share.ntime && share@.version == share.version && share@.extranonce
            == share.extranonce@,
        open@.request_id == open.request_id && open@.user_identity == open.user_identity@,
        prev@.channel_id == prev.channel_id && prev@.job_id == prev.job_id && prev@.prev_hash
            == prev.prev_hash@ && prev@.min_ntime == prev.min_ntime && prev@.nbits == prev.nbits,
        job@.channel_id == job.channel_id && job@.job_id == job.job_id && job@.min_ntime
            == job.min_ntime && job@.version == job.version && job@.version_rolling_allowed
            == job.version_rolling_allowed && job@.coinbase_tx_prefix == job.coinbase_tx_prefix@
            && job@.coinbase_tx_suffix == job.coinbase_tx_suffix@,
        job@.merkle_path.len() == job.merkle_path@.len(),
        0 <= i < job.merkle_path@.len() ==> job@.merkle_path[i] == job.merkle_path@[i]@,
        grant@.request_id == grant.request_id && grant@.channel_id == grant.channel_id
            && grant@.target == grant.target@ && grant@.extranonce_size == grant.extranonce_size
            && grant@.extranonce_prefix == grant.extranonce_prefix@ && grant@.group_channel_id
            == grant.group_channel_id,
{
}

/// Reads the `SetupConnection` at the front of a payload.
pub fn read_setup_connection(payload: &Vec<u8>) -> (out: Option<SetupConnection>)
    ensures
        match out {
            Some(m) => setup_at_front(payload@) == Some(m@),
            None => setup_at_front(payload@) is None,
        },
{
    match setup_connection_from_bytes(payload) {
        Ok(m) => Some(m),
        Err(_) => None,
    }
}

/// Reads the `OpenExtendedMiningChannel` at the front of a payload.
pub fn read_open_channel(payload: &Vec<u8>) -> (out: Option<OpenExtendedMiningChannel>)
    ensures
        match out {
            Some(m) => open_at_front(payload@) == Some(m@),
            None => open_at_front(payload@) is None,
        },
{
    match open_channel_from_bytes(payload) {
        Ok(m) => Some(m),
        Err(_) => None,
    }
}

/// Reads the `SubmitSharesExtended` at the front of a payload.
pub fn read_submit_shares(payload: &Vec<u8>) -> (out: Option<SubmitSharesExtended>)
    ensures
        match out {
            Some(m) => submit_at_front(payload@) == Some(m@),
            None => submit_at_front(payload@) is None,
        },
{
    match submit_shares_from_bytes(payload) {
        Ok(m) => Some(m),
        Err(_) => None,
    }
}

/// The bits of the nominal hash rate of a request for a channel, or nothing where the
/// payload is no such request.
pub fn nominal_rate_bits(payload: &Vec<u8>) -> (out: Option<u32>)
    ensures
        match out {
            Some(bits) => open_at_front(payload@) is Some && bits == rate_bits(payload@),
            None => open_at_front(payload@) is None,
        },
{
    if payload.len() < 5 {
        return None;
    }
    let at: usize = 5 + payload[4] as usize;
    if payload.len() < at + 38 {
        return None;
    }
    let low: u32 = payload[at] as u32 + 0x100 * payload[at + 1] as u32;
    let high: u32 = payload[at + 2] as u32 + 0x100 * payload[at + 3] as u32;
    proof {
        let window = payload@.subrange(at as int, at + 4);
        reveal_with_fuel(bytes::le_value, 5);
        assert(window.drop_first()[0] == window[1]);
        assert(window.drop_first().drop_first()[0] == window[2]);
        assert(window.drop_first().drop_first().drop_first()[0] == window[3]);
    }
    Some(low + 0x1_0000 * high)
}

} // verus!
